//! Directives in Markdown: an element at the top level of a Markdown text
//! names a program, and the text up to its closing tag is the program's
//! input.

use crate::parse::parse_tag::{parse_tag, tag_at};
use crate::parse::scan::Parsed;
use crate::text::{same_text, utf8};
use crate::types::{
    attribute_models, kind_delta, value_model, AttributeModel, HTMLTag, HTMLTagKind, TagModel,
};
use vstd::prelude::*;
use vstd::string::*;

verus! {

/// The name of the attribute that holds the arguments of a program.
pub const ARGUMENTS_ATTRIBUTE: &'static str = "args";

/// What the logic reads of one event of a Markdown text: the raw HTML that
/// it stands for, if it is such an event and its text is part of the
/// input, and the bytes of the input that it covers.
#[derive(Debug, PartialEq, Eq, Clone, Copy)]
pub struct MarkdownEvent<'a> {
    pub html: Option<&'a str>,
    pub start: usize,
    pub end: usize,
}

/// How far the reading of a directive has come.
#[derive(Debug, PartialEq, Eq, Clone, Copy)]
pub enum EmbedParsing<'a> {
    /// No directive is open.
    Idle,
    /// The opening tag was met.
    Start { executable: &'a str, args: Option<&'a str> },
    /// Input was met, from byte `start` up to byte `end` of the text.
    Partial { executable: &'a str, args: Option<&'a str>, start: usize, end: usize },
}

/// A request to run a program on a part of the text.
#[derive(Debug, PartialEq, Eq, Clone, Copy)]
pub struct EmbedRequest<'a> {
    pub executable: &'a str,
    pub args: Option<&'a str>,
    /// The input: the text from this byte
    pub input_start: usize,
    /// up to this one.
    pub input_end: usize,
    /// The place among the pieces that the output is to take.
    pub piece_index: usize,
}

/// A piece of the document that is put together.
#[derive(Debug, PartialEq, Eq, Clone, Copy)]
pub enum Piece {
    /// The event with this number, as it is.
    Markdown(usize),
    /// The output of a request, which is still to come.
    EmbedPending,
}

/// What is kept while the events are read.
pub struct ParseState<'a> {
    pub depth: isize,
    pub parsing: EmbedParsing<'a>,
    pub pieces: Vec<Piece>,
    pub requests: Vec<EmbedRequest<'a>>,
}

/// An event as plain values.
pub struct EventModel {
    pub html: Option<Seq<u8>>,
    pub start: int,
    pub end: int,
}

/// The reading of a directive as plain values.
pub enum ParsingModel {
    Idle,
    Start { executable: Seq<u8>, args: Option<Seq<u8>> },
    Partial { executable: Seq<u8>, args: Option<Seq<u8>>, start: int, end: int },
}

/// A request as plain values.
pub struct RequestModel {
    pub executable: Seq<u8>,
    pub args: Option<Seq<u8>>,
    pub input_start: int,
    pub input_end: int,
    pub piece_index: int,
}

/// The state as plain values.
pub struct StateModel {
    pub depth: int,
    pub parsing: ParsingModel,
    pub pieces: Seq<Piece>,
    pub requests: Seq<RequestModel>,
}

impl<'a> View for MarkdownEvent<'a> {
    type V = EventModel;

    open spec fn view(&self) -> EventModel {
        EventModel { html: value_model(self.html), start: self.start as int, end: self.end as int }
    }
}

impl<'a> View for EmbedParsing<'a> {
    type V = ParsingModel;

    open spec fn view(&self) -> ParsingModel {
        match self {
            EmbedParsing::Idle => ParsingModel::Idle,
            EmbedParsing::Start { executable, args } => ParsingModel::Start {
                executable: executable.spec_bytes(),
                args: value_model(*args),
            },
            EmbedParsing::Partial { executable, args, start, end } => ParsingModel::Partial {
                executable: executable.spec_bytes(),
                args: value_model(*args),
                start: *start as int,
                end: *end as int,
            },
        }
    }
}

impl<'a> View for EmbedRequest<'a> {
    type V = RequestModel;

    open spec fn view(&self) -> RequestModel {
        RequestModel {
            executable: self.executable.spec_bytes(),
            args: value_model(self.args),
            input_start: self.input_start as int,
            input_end: self.input_end as int,
            piece_index: self.piece_index as int,
        }
    }
}

impl<'a> View for ParseState<'a> {
    type V = StateModel;

    open spec fn view(&self) -> StateModel {
        StateModel {
            depth: self.depth as int,
            parsing: self.parsing@,
            pieces: self.pieces@,
            requests: request_models(self.requests@),
        }
    }
}

/// The models of a list of events, in order.
pub open spec fn event_models(events: Seq<MarkdownEvent>) -> Seq<EventModel> {
    events.map_values(|e: MarkdownEvent| e@)
}

/// The models of a list of requests, in order.
pub open spec fn request_models(requests: Seq<EmbedRequest>) -> Seq<RequestModel> {
    requests.map_values(|r: EmbedRequest| r@)
}

/// The events that `pulldown_cmark::Parser` gives for a text, each with the
/// bytes that it covers.
pub uninterp spec fn markdown_events(text: Seq<char>) -> Seq<EventModel>;

/// Calls `pulldown_cmark::Parser::new` and `into_offset_iter`, and keeps of
/// each event what [`MarkdownEvent`] holds. The events depend on the text
/// alone.
#[verifier::external_body]
fn read_markdown<'a>(text: &'a str) -> (events: Vec<MarkdownEvent<'a>>)
    ensures
        event_models(events@) == markdown_events(text@),
{
    pulldown_cmark::Parser::new(text).into_offset_iter().map(
        |(event, range)|
            MarkdownEvent {
                html: match event {
                    pulldown_cmark::Event::Html(pulldown_cmark::CowStr::Borrowed(html)) => Some(html),
                    _ => None,
                },
                start: range.start,
                end: range.end,
            },
    ).collect()
}

/// The tag that an event stands for: its raw HTML, where that starts with a
/// tag.
pub open spec fn event_tag(event: EventModel) -> Option<TagModel> {
    match event.html {
        Some(html) => match tag_at(html, 0) {
            Parsed::Match { value, .. } => Some(value),
            Parsed::Mismatch { .. } => None,
        },
        None => None,
    }
}

/// The value of the first attribute from `i` on that is named `args`.
pub open spec fn arguments_from(attributes: Seq<AttributeModel>, i: int) -> Option<Seq<u8>>
    decreases attributes.len() - i,
{
    if i < 0 || i >= attributes.len() {
        None
    } else if attributes[i].0 == utf8(ARGUMENTS_ATTRIBUTE@) {
        attributes[i].1
    } else {
        arguments_from(attributes, i + 1)
    }
}

/// The reading of a directive behind an event, and the request that the
/// event completes, if it does.
///
/// An opening tag at depth 0 opens a directive when none is open; its name
/// is the program. The event behind it starts the input, and every event
/// after that makes the input longer, until a closing tag at depth 1
/// completes the request.
pub open spec fn parsing_after(
    depth: int,
    tag: Option<TagModel>,
    parsing: ParsingModel,
    event: EventModel,
) -> (ParsingModel, Option<(Seq<u8>, Option<Seq<u8>>, int, int)>) {
    if depth == 0 && tag is Some && tag->0.kind == HTMLTagKind::Open && parsing is Idle {
        (
            ParsingModel::Start {
                executable: tag->0.name,
                args: arguments_from(tag->0.attributes, 0),
            },
            None,
        )
    } else if depth == 1 && tag is Some && tag->0.kind == HTMLTagKind::Close && parsing is Partial {
        (
            ParsingModel::Idle,
            Some(
                (
                    parsing->Partial_executable,
                    parsing->Partial_args,
                    parsing->Partial_start,
                    parsing->Partial_end,
                ),
            ),
        )
    } else {
        match parsing {
            ParsingModel::Start { executable, args } => (
                ParsingModel::Partial { executable, args, start: event.start, end: event.end },
                None,
            ),
            ParsingModel::Partial { executable, args, start, end } => (
                ParsingModel::Partial { executable, args, start, end: event.end },
                None,
            ),
            ParsingModel::Idle => (ParsingModel::Idle, None),
        }
    }
}

/// The state behind the event with number `index`.
///
/// A completed request is recorded with the place that its output will
/// take, and that place is kept free. An event that is no tag and comes at
/// depth 0 or below is a piece of the document. A tag moves the depth.
pub open spec fn state_after(state: StateModel, event: EventModel, index: int) -> StateModel {
    let tag = event_tag(event);
    let step = parsing_after(state.depth, tag, state.parsing, event);
    let requests = match step.1 {
        Some(request) => state.requests.push(
            RequestModel {
                executable: request.0,
                args: request.1,
                input_start: request.2,
                input_end: request.3,
                piece_index: state.pieces.len() as int,
            },
        ),
        None => state.requests,
    };
    let pieces = if step.1 is Some {
        state.pieces.push(Piece::EmbedPending)
    } else if tag is None && state.depth < 1 {
        state.pieces.push(Piece::Markdown(index as usize))
    } else {
        state.pieces
    };
    StateModel {
        depth: match tag {
            Some(found) => state.depth + kind_delta(found.kind),
            None => state.depth,
        },
        parsing: step.0,
        pieces,
        requests,
    }
}

/// The state behind the first `n` events, from the empty state.
pub open spec fn state_behind(events: Seq<EventModel>, n: int) -> StateModel
    decreases n,
{
    if n <= 0 {
        StateModel {
            depth: 0,
            parsing: ParsingModel::Idle,
            pieces: Seq::empty(),
            requests: Seq::empty(),
        }
    } else {
        state_after(state_behind(events, n - 1), events[n - 1], n - 1)
    }
}

/// The value of the first attribute named `args`, if it has one.
pub fn arguments_attribute<'a>(attributes: &Vec<(&'a str, Option<&'a str>)>) -> (arguments: Option<
    &'a str,
>)
    ensures
        value_model(arguments) == arguments_from(attribute_models(attributes@), 0),
{
    let ghost models = attribute_models(attributes@);
    let mut i: usize = 0;
    while i < attributes.len()
        invariant
            i <= attributes@.len(),
            models == attribute_models(attributes@),
            arguments_from(models, 0) == arguments_from(models, i as int),
        decreases attributes@.len() - i,
    {
        if same_text(attributes[i].0, ARGUMENTS_ATTRIBUTE) {
            return attributes[i].1;
        }
        i = i + 1;
    }
    None
}

/// Reads the tag that an event stands for.
pub fn tag_of_event<'a>(event: &MarkdownEvent<'a>) -> (tag: Option<HTMLTag<'a>>)
    ensures
        match tag {
            Some(found) => event_tag(event@) == Some(found@),
            None => event_tag(event@) is None,
        },
{
    match event.html {
        Some(html) => match parse_tag(html) {
            Ok((_, tag)) => Some(tag),
            Err(_) => None,
        },
        None => None,
    }
}

/// Takes the state over the event with number `index`.
pub fn event_step<'a>(state: ParseState<'a>, event: &MarkdownEvent<'a>, index: usize) -> (next:
    ParseState<'a>)
    requires
        isize::MIN < state.depth < isize::MAX,
    ensures
        next@ == state_after(state@, event@, index as int),
{
    let ghost before = state@;
    let ParseState { depth, parsing, pieces, requests } = state;
    let mut pieces = pieces;
    let mut requests = requests;
    let tag = tag_of_event(event);
    let opening = match &tag {
        Some(found) => matches!(found.kind, HTMLTagKind::Open),
        None => false,
    };
    let closing = match &tag {
        Some(found) => matches!(found.kind, HTMLTagKind::Close),
        None => false,
    };
    let mut completed = false;
    let next_parsing = match parsing {
        EmbedParsing::Idle => {
            if depth == 0 && opening {
                match &tag {
                    Some(found) => EmbedParsing::Start {
                        executable: found.name,
                        args: arguments_attribute(&found.attributes),
                    },
                    None => EmbedParsing::Idle,
                }
            } else {
                EmbedParsing::Idle
            }
        },
        EmbedParsing::Start { executable, args } => EmbedParsing::Partial {
            executable,
            args,
            start: event.start,
            end: event.end,
        },
        EmbedParsing::Partial { executable, args, start, end } => {
            if depth == 1 && closing {
                let request = EmbedRequest {
                    executable,
                    args,
                    input_start: start,
                    input_end: end,
                    piece_index: pieces.len(),
                };
                proof {
                    assert(request_models(requests@.push(request)) =~= request_models(
                        requests@,
                    ).push(request@));
                }
                requests.push(request);
                pieces.push(Piece::EmbedPending);
                completed = true;
                EmbedParsing::Idle
            } else {
                EmbedParsing::Partial { executable, args, start, end: event.end }
            }
        },
    };
    if tag.is_none() && depth < 1 {
        pieces.push(Piece::Markdown(index));
    }
    let next_depth = match &tag {
        Some(found) => depth + found.kind.depth_change(),
        None => depth,
    };
    let next = ParseState { depth: next_depth, parsing: next_parsing, pieces, requests };
    proof {
        assert(next@.requests =~= state_after(before, event@, index as int).requests);
        assert(next@.pieces =~= state_after(before, event@, index as int).pieces);
    }
    next
}

/// Reads the directives out of the events of a Markdown text.
///
/// The pieces are the events outside of directives, by their numbers, and
/// a free place for each request; the requests come in the order in which
/// their closing tags were met. A directive that is still open at the end
/// gives no request.
pub fn parse_events<'a>(events: &Vec<MarkdownEvent<'a>>) -> (r: (Vec<Piece>, Vec<EmbedRequest<'a>>))
    requires
        events@.len() < isize::MAX,
    ensures
        r.0@ == state_behind(event_models(events@), events@.len() as int).pieces,
        request_models(r.1@) == state_behind(event_models(events@), events@.len() as int).requests,
{
    let ghost models = event_models(events@);
    let mut state = ParseState {
        depth: 0,
        parsing: EmbedParsing::Idle,
        pieces: Vec::new(),
        requests: Vec::new(),
    };
    let mut i: usize = 0;
    proof {
        assert(state@.pieces =~= state_behind(models, 0).pieces);
        assert(state@.requests =~= state_behind(models, 0).requests);
    }
    while i < events.len()
        invariant
            i <= events@.len(),
            events@.len() < isize::MAX,
            models == event_models(events@),
            state@ == state_behind(models, i as int),
            -(i as int) <= state.depth <= i,
        decreases events@.len() - i,
    {
        assert(models[i as int] == events@[i as int]@);
        state = event_step(state, &events[i], i);
        i = i + 1;
    }
    (state.pieces, state.requests)
}

/// Reads the directives out of a Markdown text, as [`parse_events`] does
/// from its events. `None` where the text has more events than the depth
/// can count.
pub fn do_parse<'a>(text: &'a str) -> (r: Option<(Vec<Piece>, Vec<EmbedRequest<'a>>)>)
    ensures
        match r {
            Some((pieces, requests)) => {
                &&& markdown_events(text@).len() < isize::MAX
                &&& pieces@ == state_behind(
                    markdown_events(text@),
                    markdown_events(text@).len() as int,
                ).pieces
                &&& request_models(requests@) == state_behind(
                    markdown_events(text@),
                    markdown_events(text@).len() as int,
                ).requests
            },
            None => markdown_events(text@).len() >= isize::MAX,
        },
{
    let events = read_markdown(text);
    if events.len() < isize::MAX as usize {
        Some(parse_events(&events))
    } else {
        None
    }
}

} // verus!
