//! Reading back what the formatter wrote.

use crate::depth::{depth_after, reported_depth};
use crate::format::{
    attribute_text, attributes_text, html_text, indentation, island_after, island_model, layout,
    lead, part_text, tag_text, INDENT,
};
use crate::parse::parse_attribute::spaced_attribute_at;
use crate::parse::parse_comment::{
    comment_at, comment_close_from, comment_closes, find_comment_close, lemma_comment_close_skip,
};
use crate::parse::parse_doctype::doctype_at;
use crate::parse::parse_part::{document, part_at, parts_at};
use crate::parse::parse_tag::{attributes_at, attributes_tag_at, close_tag_at};
use crate::parse::scan::{
    byte_is, lemma_run_end, lemma_run_end_is, run_end, scan, ByteClass, Parsed, BANG, DASH,
    DOUBLE_QUOTE, EQUALS, GREATER_THAN, LESS_THAN, LINE_FEED, SLASH, SPACE,
};
use crate::standard_elements::{is_void_element, is_void_name};
use crate::text::utf8;
use crate::types::{
    attribute_model, attribute_models, part_delta, part_models, AttributeModel, HTMLPart, HTMLTag,
    HTMLTagKind, PartModel, TagModel,
};
use std::borrow::Cow;
use vstd::prelude::*;
use vstd::string::*;
use vstd::utf8::*;

verus! {

/// The bytes `b` stand in `s` from position `q` on.
pub open spec fn holds(s: Seq<u8>, q: int, b: Seq<u8>) -> bool {
    &&& 0 <= q
    &&& q + b.len() <= s.len()
    &&& forall|k: int| 0 <= k < b.len() ==> s[q + k] == #[trigger] b[k]
}

/// A text made of two stands where its first part stands and, behind it,
/// its second.
pub proof fn lemma_holds_concat(s: Seq<u8>, q: int, a: Seq<u8>, b: Seq<u8>)
    ensures
        holds(s, q, a + b) <==> holds(s, q, a) && holds(s, q + a.len(), b),
{
    if holds(s, q, a + b) {
        assert forall|k: int| 0 <= k < a.len() implies s[q + k] == #[trigger] a[k] by {
            assert((a + b)[k] == a[k]);
        }
        assert forall|k: int| 0 <= k < b.len() implies s[q + a.len() + k] == #[trigger] b[k] by {
            assert((a + b)[a.len() + k] == b[k]);
        }
    }
    if holds(s, q, a) && holds(s, q + a.len(), b) {
        assert forall|k: int| 0 <= k < (a + b).len() implies s[q + k] == #[trigger] (a + b)[k] by {
            if k >= a.len() {
                assert(b[k - a.len()] == (a + b)[k]);
            }
        }
    }
}

/// The bytes of the words that the formatter writes.
pub proof fn lemma_words()
    ensures
        utf8("<"@) == seq![LESS_THAN],
        utf8(">"@) == seq![GREATER_THAN],
        utf8("</"@) == seq![LESS_THAN, SLASH],
        utf8(" /"@) == seq![SPACE, SLASH],
        utf8(" "@) == seq![SPACE],
        utf8("=\""@) == seq![EQUALS, DOUBLE_QUOTE],
        utf8("\""@) == seq![DOUBLE_QUOTE],
        utf8("\n"@) == seq![LINE_FEED],
        utf8(INDENT@) == seq![SPACE, SPACE],
        utf8("<!--"@) == seq![LESS_THAN, BANG, DASH, DASH],
        utf8("-->"@) == seq![DASH, DASH, GREATER_THAN],
{
    reveal_strlit("<");
    reveal_strlit(">");
    reveal_strlit("</");
    reveal_strlit(" /");
    reveal_strlit(" ");
    reveal_strlit("=\"");
    reveal_strlit("\"");
    reveal_strlit("\n");
    reveal_strlit("  ");
    reveal_strlit("<!--");
    reveal_strlit("-->");
    is_ascii_chars_encode_utf8("<"@);
    is_ascii_chars_encode_utf8(">"@);
    is_ascii_chars_encode_utf8("</"@);
    is_ascii_chars_encode_utf8(" /"@);
    is_ascii_chars_encode_utf8(" "@);
    is_ascii_chars_encode_utf8("=\""@);
    is_ascii_chars_encode_utf8("\""@);
    is_ascii_chars_encode_utf8("\n"@);
    is_ascii_chars_encode_utf8("  "@);
    is_ascii_chars_encode_utf8("<!--"@);
    is_ascii_chars_encode_utf8("-->"@);
    assert(utf8("<"@) =~= seq![LESS_THAN]);
    assert(utf8(">"@) =~= seq![GREATER_THAN]);
    assert(utf8("</"@) =~= seq![LESS_THAN, SLASH]);
    assert(utf8(" /"@) =~= seq![SPACE, SLASH]);
    assert(utf8(" "@) =~= seq![SPACE]);
    assert(utf8("=\""@) =~= seq![EQUALS, DOUBLE_QUOTE]);
    assert(utf8("\""@) =~= seq![DOUBLE_QUOTE]);
    assert(utf8("\n"@) =~= seq![LINE_FEED]);
    assert(utf8(INDENT@) =~= seq![SPACE, SPACE]);
    assert(utf8("<!--"@) =~= seq![LESS_THAN, BANG, DASH, DASH]);
    assert(utf8("-->"@) =~= seq![DASH, DASH, GREATER_THAN]);
}

/// Every byte of `b` belongs to `class`.
pub open spec fn all_in(b: Seq<u8>, class: ByteClass) -> bool {
    forall|k: int| 0 <= k < b.len() ==> class.contains(#[trigger] b[k])
}

/// An attribute that is read back as it is written: its name is made of
/// letters, and its value, if it has one, is not empty and holds no `"`.
pub open spec fn readable_attribute(attribute: AttributeModel) -> bool {
    &&& attribute.0.len() > 0
    &&& all_in(attribute.0, ByteClass::Alphabetic)
    &&& attribute.1 matches Some(value) ==> value.len() > 0 && all_in(
        value,
        ByteClass::DoubleQuoted,
    )
}

/// Attributes that are read back as they are written.
pub open spec fn readable_attributes(attributes: Seq<AttributeModel>) -> bool {
    forall|k: int| 0 <= k < attributes.len() ==> readable_attribute(#[trigger] attributes[k])
}

/// A tag that is read back as it is written: its name is made of letters
/// and digits, a closing tag has no attributes, an opening tag does not
/// bear the name of a void element, and the attributes are readable.
pub open spec fn readable_tag(tag: TagModel) -> bool {
    &&& tag.name.len() > 0
    &&& all_in(tag.name, ByteClass::Alphanumeric)
    &&& match tag.kind {
        HTMLTagKind::Close => tag.attributes.len() == 0,
        HTMLTagKind::Open => !is_void_name(tag.name) && readable_attributes(tag.attributes),
        HTMLTagKind::Void => readable_attributes(tag.attributes),
    }
}

/// A run of `class` that stands at `q` and is followed by the end of the
/// text or by a byte outside the class ends behind it.
pub proof fn lemma_run_stands(s: Seq<u8>, q: int, b: Seq<u8>, class: ByteClass)
    requires
        holds(s, q, b),
        all_in(b, class),
        q + b.len() == s.len() || !class.contains(s[q + b.len()]),
    ensures
        run_end(s, q, class) == q + b.len(),
        s.subrange(q, q + b.len()) == b,
{
    assert forall|k: int| q <= k < q + b.len() implies class.contains(#[trigger] s[k]) by {
        assert(s[k] == b[k - q]);
    }
    lemma_run_end_is(s, q, q + b.len(), class);
    assert(s.subrange(q, q + b.len()) =~= b);
}

/// A readable attribute that stands at `q` behind one space, and is
/// followed by a space or `>`, is read as it is.
pub proof fn lemma_read_attribute(s: Seq<u8>, q: int, attribute: AttributeModel)
    requires
        readable_attribute(attribute),
        holds(s, q, utf8(" "@) + attribute_text(attribute)),
        q + 1 + attribute_text(attribute).len() < s.len(),
        s[q + 1 + attribute_text(attribute).len()] == SPACE || s[q + 1 + attribute_text(
            attribute,
        ).len()] == GREATER_THAN,
    ensures
        spaced_attribute_at(s, q) == (Parsed::Match {
            end: q + 1 + attribute_text(attribute).len(),
            value: attribute,
        }),
{
    lemma_words();
    let text = attribute_text(attribute);
    let name = attribute.0;
    let end = q + 1 + text.len();
    lemma_holds_concat(s, q, utf8(" "@), text);
    assert(s[q] == SPACE) by {
        assert(utf8(" "@)[0] == SPACE);
    }
    let name_start = q + 1;
    let name_end = name_start + name.len();
    match attribute.1 {
        Some(value) => {
            assert(text == name + utf8("=\""@) + value + utf8("\""@));
            lemma_holds_concat(s, name_start, name + utf8("=\""@) + value, utf8("\""@));
            lemma_holds_concat(s, name_start, name + utf8("=\""@), value);
            lemma_holds_concat(s, name_start, name, utf8("=\""@));
            assert(s[name_end] == EQUALS) by {
                assert(utf8("=\""@)[0] == EQUALS);
            }
            assert(s[name_end + 1] == DOUBLE_QUOTE) by {
                assert(utf8("=\""@)[1] == DOUBLE_QUOTE);
            }
            assert(s[name_end + 2 + value.len()] == DOUBLE_QUOTE) by {
                assert(utf8("\""@)[0] == DOUBLE_QUOTE);
            }
            assert(s[name_start] == name[0]);
            lemma_run_end_is(s, q, name_start, ByteClass::Blank);
            lemma_run_stands(s, name_start, name, ByteClass::Alphabetic);
            lemma_run_stands(s, name_end + 2, value, ByteClass::DoubleQuoted);
            assert(end == name_end + 3 + value.len());
        },
        None => {
            assert(text == name);
            assert(s[name_start] == name[0]);
            lemma_run_end_is(s, q, name_start, ByteClass::Blank);
            lemma_run_stands(s, name_start, name, ByteClass::Alphabetic);
            lemma_run_end(s, name_end + 1, ByteClass::Unquoted);
        },
    }
}

/// The text of attributes, taken apart at the front.
pub proof fn lemma_attributes_text_front(attributes: Seq<AttributeModel>)
    requires
        attributes.len() > 0,
    ensures
        attributes_text(attributes) == utf8(" "@) + attribute_text(attributes[0]) + attributes_text(
            attributes.drop_first(),
        ),
    decreases attributes.len(),
{
    let first = utf8(" "@) + attribute_text(attributes[0]);
    if attributes.len() == 1 {
        assert(attributes.drop_last() =~= Seq::<AttributeModel>::empty());
        assert(attributes.drop_first() =~= Seq::<AttributeModel>::empty());
        assert(attributes_text(attributes) =~= first + attributes_text(attributes.drop_first()));
    } else {
        let front = attributes.drop_last();
        lemma_attributes_text_front(front);
        assert(front[0] == attributes[0]);
        assert(front.drop_first() =~= attributes.drop_first().drop_last());
        assert(attributes.drop_first().last() == attributes.last());
        assert(attributes_text(attributes) =~= first + attributes_text(attributes.drop_first()));
    }
}

/// What may follow the attributes of a tag: `>`, or a space and `/`.
pub open spec fn ends_attributes(s: Seq<u8>, e: int) -> bool {
    byte_is(s, e, GREATER_THAN) || (byte_is(s, e, SPACE) && byte_is(s, e + 1, SLASH))
}

/// Readable attributes that stand at `q`, and are followed by the end of
/// their tag, are read as they are.
pub proof fn lemma_read_attributes(s: Seq<u8>, q: int, attributes: Seq<AttributeModel>)
    requires
        readable_attributes(attributes),
        holds(s, q, attributes_text(attributes)),
        ends_attributes(s, q + attributes_text(attributes).len()),
    ensures
        attributes_at(s, q) == (attributes, q + attributes_text(attributes).len()),
    decreases attributes.len(),
{
    lemma_words();
    if attributes.len() == 0 {
        assert(attributes_text(attributes) =~= Seq::<u8>::empty());
        if byte_is(s, q, GREATER_THAN) {
            lemma_run_end_is(s, q, q, ByteClass::Blank);
        } else {
            lemma_run_end_is(s, q, q + 1, ByteClass::Blank);
            lemma_run_end_is(s, q + 1, q + 1, ByteClass::Alphabetic);
        }
        assert(attributes_at(s, q).0 =~= attributes);
    } else {
        let first = attributes[0];
        let rest = attributes.drop_first();
        let head = utf8(" "@) + attribute_text(first);
        lemma_attributes_text_front(attributes);
        lemma_holds_concat(s, q, head, attributes_text(rest));
        let q1 = q + head.len();
        assert(readable_attribute(first));
        assert(readable_attributes(rest)) by {
            assert forall|k: int| 0 <= k < rest.len() implies readable_attribute(
                #[trigger] rest[k],
            ) by {
                assert(rest[k] == attributes[k + 1]);
            }
        }
        if rest.len() > 0 {
            lemma_attributes_text_front(rest);
            let tail = utf8(" "@) + attribute_text(rest[0]) + attributes_text(rest.drop_first());
            assert(tail[0] == SPACE) by {
                assert(utf8(" "@)[0] == SPACE);
            }
            assert(s[q1] == SPACE);
        } else {
            assert(attributes_text(rest) =~= Seq::<u8>::empty());
        }
        lemma_read_attribute(s, q, first);
        lemma_read_attributes(s, q1, rest);
        assert(seq![first] + rest =~= attributes);
    }
}

/// A readable tag that stands at `q` is read there as it is, and neither a
/// comment nor a document type is read there.
pub proof fn lemma_read_tag(s: Seq<u8>, q: int, tag: TagModel)
    requires
        readable_tag(tag),
        holds(s, q, tag_text(tag)),
    ensures
        tag.kind != HTMLTagKind::Close ==> attributes_tag_at(s, q) == (Parsed::Match {
            end: q + tag_text(tag).len(),
            value: tag,
        }),
        tag.kind == HTMLTagKind::Close ==> attributes_tag_at(s, q) is Mismatch && close_tag_at(s, q)
            == (Parsed::Match { end: q + tag_text(tag).len(), value: tag }),
        byte_is(s, q, LESS_THAN),
        !byte_is(s, q + 1, BANG),
{
    lemma_words();
    let name = tag.name;
    let attributes = attributes_text(tag.attributes);
    match tag.kind {
        HTMLTagKind::Close => {
            assert(tag_text(tag) == utf8("</"@) + name + utf8(">"@));
            lemma_holds_concat(s, q, utf8("</"@) + name, utf8(">"@));
            lemma_holds_concat(s, q, utf8("</"@), name);
            assert(s[q] == LESS_THAN) by {
                assert(utf8("</"@)[0] == LESS_THAN);
            }
            assert(s[q + 1] == SLASH) by {
                assert(utf8("</"@)[1] == SLASH);
            }
            assert(s[q + 2 + name.len()] == GREATER_THAN) by {
                assert(utf8(">"@)[0] == GREATER_THAN);
            }
            lemma_run_end_is(s, q + 1, q + 1, ByteClass::Alphanumeric);
            lemma_run_stands(s, q + 2, name, ByteClass::Alphanumeric);
            assert(tag.attributes =~= Seq::<AttributeModel>::empty());
        },
        HTMLTagKind::Open => {
            assert(tag_text(tag) == utf8("<"@) + name + attributes + utf8(">"@));
            lemma_holds_concat(s, q, utf8("<"@) + name + attributes, utf8(">"@));
            lemma_holds_concat(s, q, utf8("<"@) + name, attributes);
            lemma_holds_concat(s, q, utf8("<"@), name);
            assert(s[q] == LESS_THAN) by {
                assert(utf8("<"@)[0] == LESS_THAN);
            }
            let name_end = q + 1 + name.len();
            let end = name_end + attributes.len();
            assert(s[end] == GREATER_THAN) by {
                assert(utf8(">"@)[0] == GREATER_THAN);
            }
            assert(s[q + 1] == name[0]);
            lemma_name_is_followed(s, name_end, tag.attributes);
            lemma_run_stands(s, q + 1, name, ByteClass::Alphanumeric);
            lemma_read_attributes(s, name_end, tag.attributes);
            lemma_run_end_is(s, end, end, ByteClass::Blank);
        },
        HTMLTagKind::Void => {
            assert(tag_text(tag) == utf8("<"@) + name + attributes + utf8(" /"@) + utf8(">"@));
            lemma_holds_concat(s, q, utf8("<"@) + name + attributes + utf8(" /"@), utf8(">"@));
            lemma_holds_concat(s, q, utf8("<"@) + name + attributes, utf8(" /"@));
            lemma_holds_concat(s, q, utf8("<"@) + name, attributes);
            lemma_holds_concat(s, q, utf8("<"@), name);
            assert(s[q] == LESS_THAN) by {
                assert(utf8("<"@)[0] == LESS_THAN);
            }
            let name_end = q + 1 + name.len();
            let end = name_end + attributes.len();
            assert(s[end] == SPACE) by {
                assert(utf8(" /"@)[0] == SPACE);
            }
            assert(s[end + 1] == SLASH) by {
                assert(utf8(" /"@)[1] == SLASH);
            }
            assert(s[end + 2] == GREATER_THAN) by {
                assert(utf8(">"@)[0] == GREATER_THAN);
            }
            assert(s[q + 1] == name[0]);
            lemma_name_is_followed(s, name_end, tag.attributes);
            lemma_run_stands(s, q + 1, name, ByteClass::Alphanumeric);
            lemma_read_attributes(s, name_end, tag.attributes);
            lemma_run_end_is(s, end, end + 1, ByteClass::Blank);
        },
    }
}

/// Where attributes stand, and behind them the end of their tag, the first
/// byte is a space or `>`.
pub proof fn lemma_name_is_followed(s: Seq<u8>, q: int, attributes: Seq<AttributeModel>)
    requires
        holds(s, q, attributes_text(attributes)),
        ends_attributes(s, q + attributes_text(attributes).len()),
    ensures
        byte_is(s, q, SPACE) || byte_is(s, q, GREATER_THAN),
{
    lemma_words();
    if attributes.len() > 0 {
        lemma_attributes_text_front(attributes);
        let text = utf8(" "@) + attribute_text(attributes[0]) + attributes_text(
            attributes.drop_first(),
        );
        assert(text[0] == SPACE) by {
            assert(utf8(" "@)[0] == SPACE);
        }
    } else {
        assert(attributes_text(attributes) =~= Seq::<u8>::empty());
    }
}

/// No `-->` stands in `text`.
pub open spec fn holds_no_comment_close(text: Seq<u8>) -> bool {
    forall|k: int| 0 <= k < text.len() ==> !#[trigger] comment_closes(text, k)
}

/// A comment whose text holds no `-->` and that stands at `q` is read there
/// as it is.
pub proof fn lemma_read_comment(s: Seq<u8>, q: int, text: Seq<u8>)
    requires
        holds_no_comment_close(text),
        holds(s, q, part_text(PartModel::Comment(text))),
    ensures
        comment_at(s, q) == (Parsed::Match {
            end: q + part_text(PartModel::Comment(text)).len(),
            value: PartModel::Comment(text),
        }),
        part_text(PartModel::Comment(text)).len() == text.len() + 7,
        byte_is(s, q, LESS_THAN),
        byte_is(s, q + 1, BANG),
{
    lemma_words();
    let open = utf8("<!--"@);
    let close = utf8("-->"@);
    lemma_holds_concat(s, q, open + text, close);
    lemma_holds_concat(s, q, open, text);
    assert(s[q] == open[0] && s[q + 1] == open[1] && s[q + 2] == open[2] && s[q + 3] == open[3]);
    let start = q + 4;
    let end = start + text.len();
    assert(s[end] == close[0] && s[end + 1] == close[1] && s[end + 2] == close[2]);
    assert forall|k: int| start <= k < end implies !comment_closes(s, k) by {
        if comment_closes(s, k) {
            if k + 2 < end {
                assert(s[k] == text[k - start] && s[k + 1] == text[k - start + 1] && s[k + 2]
                    == text[k - start + 2]);
                assert(comment_closes(text, k - start));
            }
        }
    }
    lemma_comment_close_skip(s, start, end);
    assert(comment_closes(s, end));
    assert(s.subrange(start, end) =~= text);
}

/// A document type declaration that stands at `q` is read there.
pub proof fn lemma_read_doctype(s: Seq<u8>, q: int)
    requires
        holds(s, q, part_text(PartModel::DocType)),
    ensures
        doctype_at(s, q) == (Parsed::Match { end: q + 15, value: PartModel::DocType }),
        comment_at(s, q) is Mismatch,
        part_text(PartModel::DocType).len() == 15,
        byte_is(s, q, LESS_THAN),
        byte_is(s, q + 1, BANG),
{
    reveal_strlit("<!DOCTYPE html>");
    is_ascii_chars_encode_utf8("<!DOCTYPE html>"@);
    let word = utf8("<!DOCTYPE html>"@);
    assert(word.len() == 15);
    assert(word[0] == LESS_THAN && word[1] == BANG);
    assert(word[2] == 0x44 && word[3] == 0x4f && word[4] == 0x43 && word[5] == 0x54 && word[6]
        == 0x59 && word[7] == 0x50 && word[8] == 0x45);
    assert(word[9] == SPACE);
    assert(word[10] == 0x68 && word[11] == 0x74 && word[12] == 0x6d && word[13] == 0x6c);
    assert(word[14] == GREATER_THAN);
    assert(s[q] == word[0] && s[q + 1] == word[1] && s[q + 2] == word[2] && s[q + 3] == word[3]
        && s[q + 4] == word[4] && s[q + 5] == word[5] && s[q + 6] == word[6] && s[q + 7]
        == word[7] && s[q + 8] == word[8] && s[q + 9] == word[9] && s[q + 10] == word[10] && s[q
        + 11] == word[11] && s[q + 12] == word[12] && s[q + 13] == word[13] && s[q + 14]
        == word[14]);
    lemma_run_end_is(s, q + 9, q + 10, ByteClass::Whitespace);
    lemma_run_end_is(s, q + 10, q + 14, ByteClass::Declaration);
}

/// Text that stands at `q`, holds no `<` and is followed by `<` or the end
/// is read there as it is, unless it is all whitespace and a tag follows.
pub proof fn lemma_read_text(s: Seq<u8>, q: int, text: Seq<u8>)
    requires
        text.len() > 0,
        all_in(text, ByteClass::Text),
        holds(s, q, text),
        q + text.len() == s.len() || byte_is(s, q + text.len(), LESS_THAN),
        all_in(text, ByteClass::Whitespace) ==> q + text.len() == s.len() || byte_is(
            s,
            q + text.len() + 1,
            BANG,
        ),
    ensures
        part_at(s, q) == (Parsed::Match { end: q + text.len(), value: PartModel::Text(text) }),
{
    let end = q + text.len();
    assert(s[q] == text[0]);
    lemma_run_stands(s, q, text, ByteClass::Text);
    lemma_run_end(s, q, ByteClass::Whitespace);
    let start = run_end(s, q, ByteClass::Whitespace);
    if start < end {
        assert(s[start] == text[start - q]);
    } else {
        assert forall|k: int| 0 <= k < text.len() implies ByteClass::Whitespace.contains(
            #[trigger] text[k],
        ) by {
            assert(s[q + k] == text[k]);
        }
        if end < s.len() {
            assert(start == end);
            lemma_run_end_is(s, end + 1, end + 1, ByteClass::Alphanumeric);
        }
    }
}

/// The tokens from `i` on are read back as they are written, where the
/// tokens before them have left the depth `depth` and the island `island`.
///
/// Tags are readable; a comment holds no `-->`; text is not empty and holds
/// no `<`. A comment or a document type stands first in the document or
/// inside a text island, where nothing is written before it. Text is not
/// followed by text, and text that is all whitespace is not followed by a
/// tag.
pub open spec fn canonical_from(parts: Seq<PartModel>, i: int, depth: int, island: Option<int>) -> bool
    decreases parts.len() - i,
{
    if i < 0 || i >= parts.len() {
        true
    } else {
        &&& match parts[i] {
            PartModel::Tag(tag) => readable_tag(tag),
            PartModel::Comment(text) => holds_no_comment_close(text) && (island is Some || (i == 0
                && depth == 0)),
            PartModel::DocType => island is Some || (i == 0 && depth == 0),
            PartModel::Text(text) => {
                &&& text.len() > 0
                &&& all_in(text, ByteClass::Text)
                &&& i + 1 < parts.len() ==> !(parts[i + 1] is Text)
                &&& i + 1 < parts.len() && all_in(text, ByteClass::Whitespace) ==> !(parts[i
                    + 1] is Tag)
            },
        }
        &&& canonical_from(
            parts,
            i + 1,
            depth_after(depth, part_delta(parts[i]), true),
            island_after(island, depth, parts[i]),
        )
    }
}

/// A token sequence in canonical form: one that is read back, token for
/// token, from the text that the formatter writes for it.
pub open spec fn canonical(parts: Seq<PartModel>) -> bool {
    canonical_from(parts, 0, 0, None)
}

/// Indentation is made of spaces.
pub proof fn lemma_indentation_is_blank(levels: int)
    ensures
        all_in(indentation(levels), ByteClass::Whitespace),
    decreases levels,
{
    lemma_words();
    if levels > 0 {
        lemma_indentation_is_blank(levels - 1);
        let text = indentation(levels - 1) + utf8(INDENT@);
        assert forall|k: int| 0 <= k < text.len() implies ByteClass::Whitespace.contains(
            #[trigger] text[k],
        ) by {
            if k >= indentation(levels - 1).len() {
                assert(text[k] == utf8(INDENT@)[k - indentation(levels - 1).len()]);
            } else {
                assert(text[k] == indentation(levels - 1)[k]);
            }
        }
    }
}

/// What is written before a token is whitespace.
pub proof fn lemma_lead_is_whitespace(island: Option<int>, depth: int, part: PartModel, first: bool)
    ensures
        all_in(lead(island, depth, part, first), ByteClass::Whitespace),
{
    lemma_words();
    let levels = reported_depth(depth, part_delta(part), true);
    lemma_indentation_is_blank(levels);
    let text = lead(island, depth, part, first);
    assert forall|k: int| 0 <= k < text.len() implies ByteClass::Whitespace.contains(
        #[trigger] text[k],
    ) by {
        if !(island is Some || part is Text) && !first {
            if k >= 1 {
                assert(text[k] == indentation(levels)[k - 1]);
            } else {
                assert(text[k] == utf8("\n"@)[0]);
            }
        }
    }
}

/// A token that is not text starts with `<`, and a comment or a document
/// type goes on with `!`.
pub proof fn lemma_part_starts(part: PartModel)
    requires
        !(part is Text),
    ensures
        part_text(part).len() >= 2,
        part_text(part)[0] == LESS_THAN,
        !(part is Tag) ==> part_text(part)[1] == BANG,
{
    lemma_words();
    match part {
        PartModel::Comment(text) => {
            let whole = utf8("<!--"@) + text + utf8("-->"@);
            assert(whole[0] == utf8("<!--"@)[0]);
            assert(whole[1] == utf8("<!--"@)[1]);
        },
        PartModel::DocType => {
            reveal_strlit("<!DOCTYPE html>");
            is_ascii_chars_encode_utf8("<!DOCTYPE html>"@);
        },
        PartModel::Tag(tag) => {
            match tag.kind {
                HTMLTagKind::Close => {
                    let whole = utf8("</"@) + tag.name + utf8(">"@);
                    assert(whole[0] == utf8("</"@)[0]);
                },
                HTMLTagKind::Open => {
                    let whole = utf8("<"@) + tag.name + attributes_text(tag.attributes) + utf8(
                        ">"@,
                    );
                    assert(whole[0] == utf8("<"@)[0]);
                },
                HTMLTagKind::Void => {
                    let whole = utf8("<"@) + tag.name + attributes_text(tag.attributes) + utf8(
                        " /"@,
                    ) + utf8(">"@);
                    assert(whole[0] == utf8("<"@)[0]);
                },
            }
        },
        PartModel::Text(_) => {},
    }
}

/// Nothing is read where the text ends.
pub proof fn lemma_nothing_at_the_end(s: Seq<u8>)
    ensures
        parts_at(s, s.len() as int) == (Seq::<PartModel>::empty(), s.len() as int),
{
    let n = s.len() as int;
    lemma_run_end_is(s, n, n, ByteClass::Whitespace);
    lemma_run_end_is(s, n, n, ByteClass::Text);
}

/// Where the text of the tokens from `i` on stands at `p` and reaches to
/// the end, and the tokens are in canonical form, they are what is read
/// from `p` on.
pub proof fn lemma_read_layout(
    s: Seq<u8>,
    p: int,
    parts: Seq<PartModel>,
    i: int,
    depth: int,
    island: Option<int>,
)
    requires
        0 <= i <= parts.len(),
        canonical_from(parts, i, depth, island),
        holds(s, p, layout(parts, i, depth, island)),
        p + layout(parts, i, depth, island).len() == s.len(),
    ensures
        parts_at(s, p) == (parts.subrange(i, parts.len() as int), s.len() as int),
    decreases parts.len() - i,
{
    if i == parts.len() {
        lemma_nothing_at_the_end(s);
        assert(parts.subrange(i, parts.len() as int) =~= Seq::<PartModel>::empty());
    } else {
        let part = parts[i];
        let before = lead(island, depth, part, i == 0);
        let text = part_text(part);
        let next_depth = depth_after(depth, part_delta(part), true);
        let next_island = island_after(island, depth, part);
        let rest = layout(parts, i + 1, next_depth, next_island);
        assert(layout(parts, i, depth, island) == before + text + rest);
        lemma_holds_concat(s, p, before + text, rest);
        lemma_holds_concat(s, p, before, text);
        let q = p + before.len();
        let end = q + text.len();
        lemma_lead_is_whitespace(island, depth, part, i == 0);
        match part {
            PartModel::Tag(tag) => {
                lemma_read_tag(s, q, tag);
                lemma_run_stands(s, p, before, ByteClass::Whitespace);
                if before.len() > 0 {
                    assert(s[p] == before[0]);
                }
                assert(part_at(s, p) == (Parsed::Match { end, value: part }));
            },
            PartModel::Comment(comment) => {
                assert(before =~= Seq::<u8>::empty()) by {
                    if island is None {
                        assert(indentation(0) =~= Seq::<u8>::empty());
                    }
                }
                lemma_read_comment(s, q, comment);
                assert(part_at(s, p) == (Parsed::Match { end, value: part }));
            },
            PartModel::DocType => {
                assert(before =~= Seq::<u8>::empty()) by {
                    if island is None {
                        assert(indentation(0) =~= Seq::<u8>::empty());
                    }
                }
                lemma_read_doctype(s, q);
                assert(part_at(s, p) == (Parsed::Match { end, value: part }));
            },
            PartModel::Text(content) => {
                assert(before =~= Seq::<u8>::empty());
                assert(next_island is Some);
                if i + 1 < parts.len() {
                    let follower = parts[i + 1];
                    let tail = layout(parts, i + 2, depth_after(
                        next_depth,
                        part_delta(follower),
                        true,
                    ), island_after(next_island, next_depth, follower));
                    assert(rest == lead(next_island, next_depth, follower, false) + part_text(
                        follower,
                    ) + tail);
                    assert(lead(next_island, next_depth, follower, false) =~= Seq::<u8>::empty());
                    lemma_part_starts(follower);
                    assert(rest[0] == part_text(follower)[0]);
                    assert(rest[1] == part_text(follower)[1]);
                    assert(s[end] == rest[0]);
                    assert(s[end + 1] == rest[1]);
                } else {
                    assert(rest =~= Seq::<u8>::empty());
                }
                lemma_read_text(s, q, content);
            },
        }
        lemma_part_is_not_empty(part);
        lemma_read_layout(s, end, parts, i + 1, next_depth, next_island);
        assert(seq![part] + parts.subrange(i + 1, parts.len() as int) =~= parts.subrange(
            i,
            parts.len() as int,
        ));
    }
}

/// A token in canonical form is written with at least one byte.
pub proof fn lemma_part_is_not_empty(part: PartModel)
    requires
        part matches PartModel::Text(text) ==> text.len() > 0,
    ensures
        part_text(part).len() > 0,
{
    if !(part is Text) {
        lemma_part_starts(part);
    }
}

/// Round trip: the text that the formatter writes for a token sequence in
/// canonical form is a document, its tokens are that sequence, and
/// formatting them gives the text again.
pub proof fn lemma_round_trip(parts: Seq<PartModel>)
    requires
        canonical(parts),
    ensures
        document(html_text(parts)) == (Parsed::Match {
            end: html_text(parts).len() as int,
            value: parts,
        }),
        html_text(document(html_text(parts))->value) == html_text(parts),
{
    let s = html_text(parts);
    lemma_read_layout(s, 0, parts, 0, 0, None);
    assert(parts.subrange(0, parts.len() as int) =~= parts);
}

/// Whether every byte of `text` belongs to `class`.
pub fn is_all_in(text: &str, class: ByteClass) -> (r: bool)
    ensures
        r == all_in(text.spec_bytes(), class),
{
    let bytes = text.as_bytes();
    proof {
        lemma_run_end(bytes@, 0, class);
        if all_in(bytes@, class) {
            lemma_run_end_is(bytes@, 0, bytes@.len() as int, class);
        }
    }
    scan(bytes, 0, class) == bytes.len()
}

/// Whether an attribute is readable.
pub fn is_readable_attribute(attribute: &(&str, Option<&str>)) -> (r: bool)
    ensures
        r == readable_attribute(attribute_model(*attribute)),
{
    if attribute.0.as_bytes().len() == 0 || !is_all_in(attribute.0, ByteClass::Alphabetic) {
        return false;
    }
    match attribute.1 {
        Some(value) => value.as_bytes().len() > 0 && is_all_in(value, ByteClass::DoubleQuoted),
        None => true,
    }
}

/// Whether a tag is readable.
pub fn is_readable_tag(tag: &HTMLTag) -> (r: bool)
    ensures
        r == readable_tag(tag@),
{
    if tag.name.as_bytes().len() == 0 || !is_all_in(tag.name, ByteClass::Alphanumeric) {
        return false;
    }
    match tag.kind {
        HTMLTagKind::Close => tag.attributes.len() == 0,
        HTMLTagKind::Open => {
            if is_void_element(tag.name) {
                return false;
            }
            are_readable_attributes(&tag.attributes)
        },
        HTMLTagKind::Void => are_readable_attributes(&tag.attributes),
    }
}

/// Whether all attributes of a list are readable.
pub fn are_readable_attributes(attributes: &Vec<(&str, Option<&str>)>) -> (r: bool)
    ensures
        r == readable_attributes(attribute_models(attributes@)),
{
    let ghost models = attribute_models(attributes@);
    let mut i: usize = 0;
    while i < attributes.len()
        invariant
            i <= attributes@.len(),
            models == attribute_models(attributes@),
            forall|k: int| 0 <= k < i ==> readable_attribute(#[trigger] models[k]),
        decreases attributes@.len() - i,
    {
        assert(models[i as int] == attribute_model(attributes@[i as int]));
        if !is_readable_attribute(&attributes[i]) {
            return false;
        }
        i = i + 1;
    }
    true
}

/// Where the search for `-->` finds nothing, nothing is there.
pub proof fn lemma_no_comment_close(s: Seq<u8>, i: int)
    requires
        0 <= i,
    ensures
        comment_close_from(s, i) is None <==> forall|k: int|
            i <= k < s.len() ==> !#[trigger] comment_closes(s, k),
    decreases s.len() - i,
{
    if i < s.len() {
        lemma_no_comment_close(s, i + 1);
        if !comment_closes(s, i) {
            assert forall|k: int| i <= k < s.len() && (forall|j: int|
                i + 1 <= j < s.len() ==> !#[trigger] comment_closes(s, j)) implies !comment_closes(
                s,
                k,
            ) by {}
        }
    }
}

/// Whether a text holds no `-->`.
pub fn is_without_comment_close(text: &str) -> (r: bool)
    ensures
        r == holds_no_comment_close(text.spec_bytes()),
{
    proof {
        lemma_no_comment_close(text.spec_bytes(), 0);
    }
    find_comment_close(text.as_bytes(), 0).is_none()
}

/// Whether a token sequence is in canonical form, so that it is read back
/// from the text that is written for it.
pub fn is_canonical<'a>(parts: &[HTMLPart<'a>]) -> (r: bool)
    ensures
        r == canonical(part_models(parts@)),
{
    let ghost models = part_models(parts@);
    let mut depth: usize = 0;
    let mut inside_text: Option<usize> = None;
    let mut i: usize = 0;
    while i < parts.len()
        invariant
            i <= parts@.len(),
            models == part_models(parts@),
            depth <= i,
            canonical(models) == canonical_from(
                models,
                i as int,
                depth as int,
                island_model(inside_text),
            ),
        decreases parts@.len() - i,
    {
        let part = &parts[i];
        assert(models[i as int] == part@);
        let fits = match part {
            HTMLPart::Tag(tag) => is_readable_tag(tag),
            HTMLPart::Comment(text) => is_without_comment_close(text) && (inside_text.is_some() || (
            i == 0 && depth == 0)),
            HTMLPart::DocType => inside_text.is_some() || (i == 0 && depth == 0),
            HTMLPart::Text(text) => {
                let content = match text {
                    Cow::Borrowed(borrowed) => *borrowed,
                    Cow::Owned(owned) => owned.as_str(),
                };
                if content.as_bytes().len() == 0 || !is_all_in(content, ByteClass::Text) {
                    false
                } else if i + 1 < parts.len() {
                    assert(models[i + 1] == parts@[i + 1]@);
                    match &parts[i + 1] {
                        HTMLPart::Text(_) => false,
                        HTMLPart::Tag(_) => !is_all_in(content, ByteClass::Whitespace),
                        _ => true,
                    }
                } else {
                    true
                }
            },
        };
        if !fits {
            return false;
        }
        let closing = match part {
            HTMLPart::Tag(tag) => matches!(tag.kind, HTMLTagKind::Close),
            _ => false,
        };
        let opening = match part {
            HTMLPart::Tag(tag) => matches!(tag.kind, HTMLTagKind::Open),
            _ => false,
        };
        let is_text = match part {
            HTMLPart::Text(_) => true,
            _ => false,
        };
        let new_depth = if opening {
            depth + 1
        } else if closing && depth > 0 {
            depth - 1
        } else {
            depth
        };
        let new_inside = match inside_text {
            Some(start) => if closing && start == depth {
                None
            } else {
                inside_text
            },
            None => if is_text {
                Some(depth)
            } else {
                None
            },
        };
        assert(new_depth == depth_after(depth as int, part_delta(part@), true));
        assert(island_model(new_inside) == island_after(
            island_model(inside_text),
            depth as int,
            part@,
        ));
        depth = new_depth;
        inside_text = new_inside;
        i = i + 1;
    }
    true
}

} // verus!
