//! The embed extractor: finds the directives that ask for a command to be
//! run, and gathers what stands between an opening directive and its closing
//! tag as the input of the command.

use crate::depth::{depth_after, reported_depth, WithDepthIterator};
use crate::format::{format_html, html_text};
use crate::text::{same_text, utf8};
use crate::types::{
    attribute_models, part_delta, part_models, value_model, AttributeModel, HTMLPart,
    HTMLTagKind, PartModel,
};
use std::borrow::Cow;
use vstd::prelude::*;
use vstd::string::*;

verus! {

/// The name of the tag that is a directive.
pub const EMBED_TAG: &'static str = "run";

/// The name of the attribute that holds the command of a directive.
pub const COMMAND_ATTRIBUTE: &'static str = "command";

/// A request to run a command, with the text to feed it if there is one.
#[derive(Clone, Debug, PartialEq, Eq)]
pub struct HTMLEmbed<'a> {
    pub command: &'a str,
    pub input: Option<Cow<'a, str>>,
}

/// What the extractor hands on: a token as it was, or a request.
#[derive(Debug, PartialEq, Eq)]
pub enum HTMLPartOrEmbed<'a> {
    Part(HTMLPart<'a>),
    Embed(HTMLEmbed<'a>),
}

/// A directive that was opened and not closed yet.
pub struct PendingHTMLEmbed<'a> {
    pub command: &'a str,
    /// The depth at which the opening directive was reported.
    pub depth: isize,
    /// The tokens met since.
    pub input_parts: Vec<HTMLPart<'a>>,
}

/// A request as bytes.
pub struct EmbedModel {
    pub command: Seq<u8>,
    pub input: Option<Seq<u8>>,
}

/// A token or a request as bytes.
pub enum PartOrEmbedModel {
    Part(PartModel),
    Embed(EmbedModel),
}

/// An open directive as bytes.
pub struct PendingModel {
    pub command: Seq<u8>,
    pub depth: int,
    pub parts: Seq<PartModel>,
}

impl<'a> View for HTMLEmbed<'a> {
    type V = EmbedModel;

    open spec fn view(&self) -> EmbedModel {
        EmbedModel {
            command: self.command.spec_bytes(),
            input: match self.input {
                Some(text) => Some(utf8(text@)),
                None => None,
            },
        }
    }
}

impl<'a> View for HTMLPartOrEmbed<'a> {
    type V = PartOrEmbedModel;

    open spec fn view(&self) -> PartOrEmbedModel {
        match self {
            HTMLPartOrEmbed::Part(part) => PartOrEmbedModel::Part(part@),
            HTMLPartOrEmbed::Embed(embed) => PartOrEmbedModel::Embed(embed@),
        }
    }
}

impl<'a> View for PendingHTMLEmbed<'a> {
    type V = PendingModel;

    open spec fn view(&self) -> PendingModel {
        PendingModel {
            command: self.command.spec_bytes(),
            depth: self.depth as int,
            parts: part_models(self.input_parts@),
        }
    }
}

/// The models of a list of tokens and requests, in order.
pub open spec fn part_or_embed_models(items: Seq<HTMLPartOrEmbed>) -> Seq<PartOrEmbedModel> {
    items.map_values(|item: HTMLPartOrEmbed| item@)
}

/// The model of an open directive, if there is one.
pub open spec fn pending_model(pending: Option<PendingHTMLEmbed>) -> Option<PendingModel> {
    match pending {
        Some(open) => Some(open@),
        None => None,
    }
}

/// The value of the first attribute from `i` on that is named `command`.
/// Where that attribute has no value there is no command, whatever follows.
pub open spec fn command_from(attributes: Seq<AttributeModel>, i: int) -> Option<Seq<u8>>
    decreases attributes.len() - i,
{
    if i < 0 || i >= attributes.len() {
        None
    } else if attributes[i].0 == utf8(COMMAND_ATTRIBUTE@) {
        attributes[i].1
    } else {
        command_from(attributes, i + 1)
    }
}

/// The command of a directive: the token is an opening or void tag named
/// `run` with a command. `None` for every other token.
pub open spec fn directive(part: PartModel) -> Option<Seq<u8>> {
    match part {
        PartModel::Tag(tag) => if tag.name == utf8(EMBED_TAG@) && tag.kind != HTMLTagKind::Close {
            command_from(tag.attributes, 0)
        } else {
            None
        },
        _ => None,
    }
}

/// Whether a token closes the open directive: it is a closing tag named
/// `run`, reported no deeper than the directive was.
pub open spec fn closes_embed(part: PartModel, depth: int, open: PendingModel) -> bool {
    part matches PartModel::Tag(tag) && tag.name == utf8(EMBED_TAG@) && tag.kind
        == HTMLTagKind::Close && depth <= open.depth
}

/// One step of the extractor, for a token reported at `depth`: the open
/// directive behind the token, and what is handed on for it.
///
/// While a directive is open every token goes into its body, directives
/// too, until the token that closes it; that one turns the body into the
/// input of a request. With no directive open, a void directive is a
/// request without input, an opening directive is kept open, and every
/// other token is handed on as it is.
pub open spec fn extract_step(pending: Option<PendingModel>, part: PartModel, depth: int) -> (
    Option<PendingModel>,
    Option<PartOrEmbedModel>,
) {
    match pending {
        Some(open) => if closes_embed(part, depth, open) {
            (
                None,
                Some(
                    PartOrEmbedModel::Embed(
                        EmbedModel { command: open.command, input: Some(html_text(open.parts)) },
                    ),
                ),
            )
        } else {
            (
                Some(
                    PendingModel {
                        command: open.command,
                        depth: open.depth,
                        parts: open.parts.push(part),
                    },
                ),
                None,
            )
        },
        None => match directive(part) {
            Some(command) => if part->Tag_0.kind == HTMLTagKind::Void {
                (None, Some(PartOrEmbedModel::Embed(EmbedModel { command, input: None })))
            } else {
                (Some(PendingModel { command, depth, parts: Seq::empty() }), None)
            },
            None => (None, Some(PartOrEmbedModel::Part(part))),
        },
    }
}

/// What is handed on for the tokens from `i` on, where the tokens before
/// them have left the signed depth `depth` and the open directive
/// `pending`. A directive that is still open at the end is dropped with its
/// body.
pub open spec fn extract_from(
    parts: Seq<PartModel>,
    i: int,
    depth: int,
    pending: Option<PendingModel>,
) -> Seq<PartOrEmbedModel>
    decreases parts.len() - i,
{
    if 0 <= i < parts.len() {
        let step = extract_step(
            pending,
            parts[i],
            reported_depth(depth, part_delta(parts[i]), false),
        );
        let rest = extract_from(
            parts,
            i + 1,
            depth_after(depth, part_delta(parts[i]), false),
            step.0,
        );
        match step.1 {
            Some(item) => seq![item] + rest,
            None => rest,
        }
    } else {
        Seq::empty()
    }
}

/// The tokens and requests of a token sequence.
pub open spec fn embeds(parts: Seq<PartModel>) -> Seq<PartOrEmbedModel> {
    extract_from(parts, 0, 0, None)
}

/// The value of the first attribute from `i` on that is named `command`,
/// as the string that the attribute holds.
pub open spec fn command_value<'a>(attributes: Seq<(&'a str, Option<&'a str>)>, i: int) -> Option<
    &'a str,
>
    decreases attributes.len() - i,
{
    if i < 0 || i >= attributes.len() {
        None
    } else if attributes[i].0.spec_bytes() == utf8(COMMAND_ATTRIBUTE@) {
        attributes[i].1
    } else {
        command_value(attributes, i + 1)
    }
}

/// The request that a token stands for by itself, without input.
pub open spec fn embed_for<'a>(part: HTMLPart<'a>) -> Option<HTMLEmbed<'a>> {
    match part {
        HTMLPart::Tag(tag) => if tag.name.spec_bytes() == utf8(EMBED_TAG@) && tag.kind
            != HTMLTagKind::Close {
            match command_value(tag.attributes@, 0) {
                Some(command) => Some(HTMLEmbed { command, input: None }),
                None => None,
            }
        } else {
            None
        },
        _ => None,
    }
}

/// The string that holds the command is the one whose bytes the model
/// holds.
pub proof fn lemma_command_value<'a>(attributes: Seq<(&'a str, Option<&'a str>)>, i: int)
    ensures
        value_model(command_value(attributes, i)) == command_from(attribute_models(attributes), i),
    decreases attributes.len() - i,
{
    if 0 <= i < attributes.len() {
        lemma_command_value(attributes, i + 1);
    }
}

/// The value of the first attribute named `command`, if it has one.
pub fn command_attribute<'a>(attributes: &Vec<(&'a str, Option<&'a str>)>) -> (command: Option<
    &'a str,
>)
    ensures
        command == command_value(attributes@, 0),
        value_model(command) == command_from(attribute_models(attributes@), 0),
{
    let ghost models = attribute_models(attributes@);
    let mut i: usize = 0;
    proof {
        lemma_command_value(attributes@, 0);
    }
    while i < attributes.len()
        invariant
            i <= attributes@.len(),
            models == attribute_models(attributes@),
            command_from(models, 0) == command_from(models, i as int),
            command_value(attributes@, 0) == command_value(attributes@, i as int),
        decreases attributes@.len() - i,
    {
        if same_text(attributes[i].0, COMMAND_ATTRIBUTE) {
            return attributes[i].1;
        }
        i = i + 1;
    }
    None
}

/// The request that a token stands for by itself, without input: `Some` for
/// a directive, `None` for every other token.
pub fn embed_of<'a>(part: &HTMLPart<'a>) -> (embed: Option<HTMLEmbed<'a>>)
    ensures
        embed == embed_for(*part),
        match embed {
            Some(found) => directive(part@) == Some(found.command.spec_bytes())
                && found.input is None,
            None => directive(part@) is None,
        },
{
    match part {
        HTMLPart::Tag(tag) => {
            if same_text(tag.name, EMBED_TAG) && !matches!(tag.kind, HTMLTagKind::Close) {
                match command_attribute(&tag.attributes) {
                    Some(command) => Some(HTMLEmbed { command, input: None }),
                    None => None,
                }
            } else {
                None
            }
        },
        _ => None,
    }
}

impl<'a> From<&HTMLPart<'a>> for Option<HTMLEmbed<'a>> {
    /// The request that a token stands for by itself, without input.
    fn from(part: &HTMLPart<'a>) -> (embed: Self) {
        embed_of(part)
    }
}

impl<'a> vstd::std_specs::convert::FromSpecImpl<&HTMLPart<'a>> for Option<HTMLEmbed<'a>> {
    open spec fn obeys_from_spec() -> bool {
        true
    }

    open spec fn from_spec(part: &HTMLPart<'a>) -> Self {
        embed_for(*part)
    }
}

/// Whether `part`, reported at `depth`, closes `open`.
pub fn is_embed_end<'a>(part: &HTMLPart<'a>, depth: isize, open: &PendingHTMLEmbed<'a>) -> (end:
    bool)
    ensures
        end == closes_embed(part@, depth as int, open@),
{
    match part {
        HTMLPart::Tag(tag) => same_text(tag.name, EMBED_TAG) && matches!(
            tag.kind,
            HTMLTagKind::Close
        ) && depth <= open.depth,
        _ => false,
    }
}

/// One step of the extractor.
pub fn embed_step<'a>(pending: Option<PendingHTMLEmbed<'a>>, part: HTMLPart<'a>, depth: isize) -> (r:
    (Option<PendingHTMLEmbed<'a>>, Option<HTMLPartOrEmbed<'a>>))
    ensures
        pending_model(r.0) == extract_step(pending_model(pending), part@, depth as int).0,
        emitted_model(r.1) == extract_step(pending_model(pending), part@, depth as int).1,
{
    match pending {
        Some(open) => {
            if is_embed_end(&part, depth, &open) {
                let input = format_html(open.input_parts.as_slice());
                let embed = HTMLEmbed { command: open.command, input: Some(Cow::Owned(input)) };
                (None, Some(HTMLPartOrEmbed::Embed(embed)))
            } else {
                let mut open = open;
                let ghost before = open.input_parts@;
                open.input_parts.push(part);
                assert(part_models(before.push(part)) =~= part_models(before).push(part@));
                (Some(open), None)
            }
        },
        None => {
            match embed_of(&part) {
                Some(embed) => {
                    let void = match &part {
                        HTMLPart::Tag(tag) => matches!(tag.kind, HTMLTagKind::Void),
                        _ => false,
                    };
                    if void {
                        (None, Some(HTMLPartOrEmbed::Embed(embed)))
                    } else {
                        let open = PendingHTMLEmbed {
                            command: embed.command,
                            depth,
                            input_parts: Vec::new(),
                        };
                        assert(open@.parts =~= Seq::<PartModel>::empty());
                        (Some(open), None)
                    }
                },
                None => (None, Some(HTMLPartOrEmbed::Part(part))),
            }
        },
    }
}

/// The model of what a step hands on.
pub open spec fn emitted_model(emitted: Option<HTMLPartOrEmbed>) -> Option<PartOrEmbedModel> {
    match emitted {
        Some(item) => Some(item@),
        None => None,
    }
}

/// Replaces the directives of a token sequence by requests.
///
/// A void directive becomes a request without input. An opening directive
/// becomes, with everything up to the closing tag that ends it, one request
/// whose input is the canonical text of what stood between them; directives
/// inside it are part of that text and give no request of their own. All
/// other tokens come through as they are, in their order.
pub fn parse_embeds<'a>(html_parts: Vec<HTMLPart<'a>>) -> (html_parts_or_embeds: Vec<
    HTMLPartOrEmbed<'a>,
>)
    requires
        html_parts@.len() <= isize::MAX,
    ensures
        part_or_embed_models(html_parts_or_embeds@) == embeds(part_models(html_parts@)),
{
    let ghost parts = html_parts@;
    let ghost models = part_models(html_parts@);
    let mut html_parts_or_embeds: Vec<HTMLPartOrEmbed<'a>> = Vec::new();
    let mut maybe_pending_embed: Option<PendingHTMLEmbed<'a>> = None;
    let mut iter = html_parts.with_depth();
    let ghost mut i: int = 0;
    assert(part_or_embed_models(html_parts_or_embeds@) + extract_from(models, 0, 0, None)
        =~= embeds(models));
    assert(iter.remaining() =~= parts.subrange(0, parts.len() as int));
    loop
        invariant
            parts == html_parts@,
            models == part_models(parts),
            0 <= i <= parts.len(),
            iter.wf(),
            !iter.clamped(),
            iter.remaining() == parts.subrange(i, parts.len() as int),
            embeds(models) == part_or_embed_models(html_parts_or_embeds@) + extract_from(
                models,
                i,
                iter.depth(),
                pending_model(maybe_pending_embed),
            ),
        decreases parts.len() - i,
    {
        let ghost depth_before = iter.depth();
        let ghost pending_before = pending_model(maybe_pending_embed);
        let ghost out_before = part_or_embed_models(html_parts_or_embeds@);
        match iter.next() {
            None => {
                assert(parts.subrange(i, parts.len() as int).len() == 0);
                assert(i == models.len());
                assert(out_before + Seq::<PartOrEmbedModel>::empty() =~= out_before);
                return html_parts_or_embeds;
            },
            Some((hp, depth)) => {
                assert(hp == parts[i]);
                assert(models[i] == hp@);
                assert(iter.remaining() =~= parts.subrange(i + 1, parts.len() as int));
                let (pending, emitted) = embed_step(maybe_pending_embed, hp, depth);
                maybe_pending_embed = pending;
                match emitted {
                    Some(item) => {
                        proof {
                            assert(part_or_embed_models(html_parts_or_embeds@.push(item))
                                =~= out_before.push(item@));
                            assert(out_before + (seq![item@] + extract_from(
                                models,
                                i + 1,
                                iter.depth(),
                                pending_model(maybe_pending_embed),
                            )) =~= out_before.push(item@) + extract_from(
                                models,
                                i + 1,
                                iter.depth(),
                                pending_model(maybe_pending_embed),
                            ));
                        }
                        html_parts_or_embeds.push(item);
                    },
                    None => {},
                }
                proof {
                    i = i + 1;
                }
            },
        }
    }
}

} // verus!
