//! The formatter: from tokens to indented text.

use crate::depth::{depth_after, reported_depth};
use crate::text::{lemma_utf8_concat, utf8};
use crate::types::{
    attribute_model, attribute_models, part_delta, part_models, AttributeModel, HTMLPart, HTMLTag,
    HTMLTagKind, PartModel, TagModel,
};
use std::borrow::Cow;
use vstd::prelude::*;
use vstd::string::*;

verus! {

/// One level of indentation.
pub const INDENT: &'static str = "  ";

/// An attribute as text: `name="value"`, or the bare name where it has no
/// value.
pub open spec fn attribute_text(attribute: AttributeModel) -> Seq<u8> {
    match attribute.1 {
        Some(value) => attribute.0 + utf8("=\""@) + value + utf8("\""@),
        None => attribute.0,
    }
}

/// Attributes as text, a space before each.
pub open spec fn attributes_text(attributes: Seq<AttributeModel>) -> Seq<u8>
    decreases attributes.len(),
{
    if attributes.len() == 0 {
        Seq::empty()
    } else {
        attributes_text(attributes.drop_last()) + utf8(" "@) + attribute_text(attributes.last())
    }
}

/// A tag as text: `</name>` for a closing tag, else `<name`, the
/// attributes, ` /` for a void tag, and `>`.
pub open spec fn tag_text(tag: TagModel) -> Seq<u8> {
    match tag.kind {
        HTMLTagKind::Close => utf8("</"@) + tag.name + utf8(">"@),
        HTMLTagKind::Open => utf8("<"@) + tag.name + attributes_text(tag.attributes) + utf8(">"@),
        HTMLTagKind::Void => utf8("<"@) + tag.name + attributes_text(tag.attributes) + utf8(" /"@)
            + utf8(">"@),
    }
}

/// A token as text, without anything around it.
pub open spec fn part_text(part: PartModel) -> Seq<u8> {
    match part {
        PartModel::Comment(text) => utf8("<!--"@) + text + utf8("-->"@),
        PartModel::DocType => utf8("<!DOCTYPE html>"@),
        PartModel::Tag(tag) => tag_text(tag),
        PartModel::Text(text) => text,
    }
}

/// `levels` levels of indentation.
pub open spec fn indentation(levels: int) -> Seq<u8>
    decreases levels,
{
    if levels <= 0 {
        Seq::empty()
    } else {
        indentation(levels - 1) + utf8(INDENT@)
    }
}

/// Whether a token is a closing tag.
pub open spec fn is_closing(part: PartModel) -> bool {
    part matches PartModel::Tag(tag) && tag.kind == HTMLTagKind::Close
}

/// The text island behind a token. An island starts with a text token
/// outside of one, at the depth before that token, and ends with a closing
/// tag that comes at this depth.
pub open spec fn island_after(island: Option<int>, depth: int, part: PartModel) -> Option<int> {
    match island {
        Some(start) => if is_closing(part) && start == depth {
            None
        } else {
            island
        },
        None => if part is Text {
            Some(depth)
        } else {
            None
        },
    }
}

/// What stands before a token: nothing inside a text island and nothing
/// before text; else a line break, unless the token is the first, and the
/// indentation of the depth at which the token is reported.
pub open spec fn lead(island: Option<int>, depth: int, part: PartModel, first: bool) -> Seq<u8> {
    if island is Some || part is Text {
        Seq::empty()
    } else if first {
        indentation(reported_depth(depth, part_delta(part), true))
    } else {
        utf8("\n"@) + indentation(reported_depth(depth, part_delta(part), true))
    }
}

/// The text of the tokens from `i` on, where the tokens before them have
/// left the clamped depth `depth` and the text island `island`.
pub open spec fn layout(parts: Seq<PartModel>, i: int, depth: int, island: Option<int>) -> Seq<u8>
    decreases parts.len() - i,
{
    if 0 <= i < parts.len() {
        lead(island, depth, parts[i], i == 0) + part_text(parts[i]) + layout(
            parts,
            i + 1,
            depth_after(depth, part_delta(parts[i]), true),
            island_after(island, depth, parts[i]),
        )
    } else {
        Seq::empty()
    }
}

/// The canonical text of a token sequence.
pub open spec fn html_text(parts: Seq<PartModel>) -> Seq<u8> {
    layout(parts, 0, 0, None)
}

/// Appends `piece` to `out`.
fn push(out: &mut String, piece: &str)
    ensures
        utf8(final(out)@) == utf8(old(out)@) + piece.spec_bytes(),
{
    proof {
        lemma_utf8_concat(out@, piece@);
    }
    out.append(piece);
}

/// Appends `levels` levels of indentation to `out`.
fn push_indentation(out: &mut String, levels: usize)
    ensures
        utf8(final(out)@) == utf8(old(out)@) + indentation(levels as int),
{
    let mut done: usize = 0;
    assert(utf8(out@) + indentation(0) =~= utf8(out@));
    while done < levels
        invariant
            done <= levels,
            utf8(out@) == utf8(old(out)@) + indentation(done as int),
        decreases levels - done,
    {
        push(out, INDENT);
        done = done + 1;
        assert(utf8(old(out)@) + indentation(done - 1) + utf8(INDENT@) =~= utf8(old(out)@) + (
        indentation(done - 1) + utf8(INDENT@)));
    }
}

/// Renders an attribute: `name="value"`, always in double quotes, or the
/// bare name.
pub fn format_html_attribute(attribute: &(&str, Option<&str>)) -> (text: String)
    ensures
        utf8(text@) == attribute_text(attribute_model(*attribute)),
{
    let mut out = String::new();
    assert(utf8(out@) =~= Seq::<u8>::empty());
    push(&mut out, attribute.0);
    match attribute.1 {
        Some(value) => {
            push(&mut out, "=\"");
            push(&mut out, value);
            push(&mut out, "\"");
            assert(utf8(out@) =~= attribute_text(attribute_model(*attribute)));
        },
        None => {
            assert(utf8(out@) =~= attribute_text(attribute_model(*attribute)));
        },
    }
    out
}

/// Renders a tag.
pub fn format_html_tag(tag: &HTMLTag) -> (text: String)
    ensures
        utf8(text@) == tag_text(tag@),
{
    let mut out = String::new();
    assert(utf8(out@) =~= Seq::<u8>::empty());
    if matches!(tag.kind, HTMLTagKind::Close) {
        push(&mut out, "</");
        push(&mut out, tag.name);
        push(&mut out, ">");
        assert(utf8(out@) =~= tag_text(tag@));
        return out;
    }
    push(&mut out, "<");
    push(&mut out, tag.name);
    let ghost head = utf8(out@);
    assert(head =~= utf8("<"@) + tag.name.spec_bytes());
    let mut i: usize = 0;
    assert(attribute_models(tag.attributes@).take(0) =~= Seq::<AttributeModel>::empty());
    assert(head + attributes_text(Seq::<AttributeModel>::empty()) =~= head);
    while i < tag.attributes.len()
        invariant
            i <= tag.attributes@.len(),
            utf8(out@) == head + attributes_text(attribute_models(tag.attributes@).take(i as int)),
        decreases tag.attributes@.len() - i,
    {
        let rendered = format_html_attribute(&tag.attributes[i]);
        push(&mut out, " ");
        push(&mut out, rendered.as_str());
        proof {
            let models = attribute_models(tag.attributes@);
            assert(models.take(i + 1).drop_last() =~= models.take(i as int));
            assert(models.take(i + 1).last() == attribute_model(tag.attributes@[i as int]));
            assert(utf8(out@) =~= head + attributes_text(models.take(i + 1)));
        }
        i = i + 1;
    }
    assert(attribute_models(tag.attributes@).take(i as int) =~= attribute_models(tag.attributes@));
    if matches!(tag.kind, HTMLTagKind::Void) {
        push(&mut out, " /");
    }
    push(&mut out, ">");
    assert(utf8(out@) =~= tag_text(tag@));
    out
}

/// Renders a token, without anything around it.
pub fn format_html_part(part: &HTMLPart) -> (text: String)
    ensures
        utf8(text@) == part_text(part@),
{
    let mut out = String::new();
    assert(utf8(out@) =~= Seq::<u8>::empty());
    match part {
        HTMLPart::Comment(comment) => {
            push(&mut out, "<!--");
            push(&mut out, comment);
            push(&mut out, "-->");
            assert(utf8(out@) =~= part_text(part@));
            out
        },
        HTMLPart::DocType => {
            push(&mut out, "<!DOCTYPE html>");
            assert(utf8(out@) =~= part_text(part@));
            out
        },
        HTMLPart::Tag(tag) => format_html_tag(tag),
        HTMLPart::Text(text) => {
            match text {
                Cow::Borrowed(borrowed) => push(&mut out, borrowed),
                Cow::Owned(owned) => push(&mut out, owned.as_str()),
            }
            assert(utf8(out@) =~= part_text(part@));
            out
        },
    }
}

/// Renders a token sequence as its canonical text.
///
/// Tokens stand one to a line, indented by two spaces for each level that
/// is open, a closing tag as deep as the tag that opened its level. The
/// depth never falls below 0, so closing tags without an opening one are
/// rendered at the left margin. From a text token on everything stays on one
/// line, up to and with the closing tag that comes at the depth the text
/// was met at.
pub fn format_html<'a>(html_parts: &[HTMLPart<'a>]) -> (text: String)
    ensures
        utf8(text@) == html_text(part_models(html_parts@)),
{
    let ghost models = part_models(html_parts@);
    let mut output = String::new();
    let mut depth: usize = 0;
    let mut inside_text: Option<usize> = None;
    let mut i: usize = 0;
    assert(utf8(output@) + layout(models, 0, 0, None) =~= html_text(models));
    while i < html_parts.len()
        invariant
            i <= html_parts@.len(),
            models == part_models(html_parts@),
            depth <= i,
            html_text(models) == utf8(output@) + layout(
                models,
                i as int,
                depth as int,
                island_model(inside_text),
            ),
        decreases html_parts@.len() - i,
    {
        let hp = &html_parts[i];
        let ghost before = utf8(output@);
        let ghost island = island_model(inside_text);
        assert(models[i as int] == hp@);
        let closing = match hp {
            HTMLPart::Tag(tag) => matches!(tag.kind, HTMLTagKind::Close),
            _ => false,
        };
        let opening = match hp {
            HTMLPart::Tag(tag) => matches!(tag.kind, HTMLTagKind::Open),
            _ => false,
        };
        let is_text = match hp {
            HTMLPart::Text(_) => true,
            _ => false,
        };
        let new_depth = if opening {
            depth + 1
        } else if closing && depth > 0 {
            depth - 1
        } else {
            depth
        };
        assert(new_depth == depth_after(depth as int, part_delta(hp@), true));
        let reported = if opening {
            depth
        } else {
            new_depth
        };
        assert(reported == reported_depth(depth as int, part_delta(hp@), true));
        let new_inside = match inside_text {
            Some(start) => if closing && start == depth {
                None
            } else {
                inside_text
            },
            None => if is_text {
                Some(depth)
            } else {
                None
            },
        };
        assert(island_model(new_inside) == island_after(island, depth as int, hp@));
        if inside_text.is_none() && !is_text {
            if 0 < i {
                push(&mut output, "\n");
            }
            push_indentation(&mut output, reported);
        }
        assert(utf8(output@) =~= before + lead(island, depth as int, hp@, i == 0));
        let rendered = format_html_part(hp);
        push(&mut output, rendered.as_str());
        proof {
            assert(utf8(output@) + layout(
                models,
                i + 1,
                new_depth as int,
                island_model(new_inside),
            ) =~= before + layout(models, i as int, depth as int, island));
        }
        depth = new_depth;
        inside_text = new_inside;
        i = i + 1;
    }
    assert(utf8(output@) + Seq::<u8>::empty() =~= utf8(output@));
    output
}

/// The text island that the formatter keeps, as a model.
pub open spec fn island_model(island: Option<usize>) -> Option<int> {
    match island {
        Some(start) => Some(start as int),
        None => None,
    }
}

} // verus!
