//! The files that a document refers to by a path of its own, to be copied
//! along with it.

use crate::parse::parse_part::{document, parse_html, ParseHTMLError};
use crate::parse::scan::Parsed;
use crate::standard_attributes::{is_uri_attribute, is_uri_name};
use crate::text::utf8;
use crate::types::{attribute_models, part_models, AttributeModel, HTMLPart, PartModel};
use vstd::prelude::*;
use vstd::string::*;

verus! {

/// Whether `url::Url::parse` reads the text as an absolute address.
pub uninterp spec fn parses_as_url(text: Seq<char>) -> bool;

/// Calls `url::Url::parse` and says whether it gave an address. What it
/// gives depends on the text alone.
#[verifier::external_body]
fn is_absolute_url(value: &str) -> (absolute: bool)
    ensures
        absolute == parses_as_url(value@),
{
    url::Url::parse(value).is_ok()
}

/// Calls `std::path::Path::is_relative`. What is relative differs from one
/// platform to the next, so nothing is said of the answer.
#[verifier::external_body]
fn is_relative_path(value: &str) -> (relative: bool) {
    std::path::Path::new(value).is_relative()
}

/// The values of the address attributes among `attributes`, from `i` on.
pub open spec fn uri_values_of(attributes: Seq<AttributeModel>, i: int) -> Seq<Seq<u8>>
    decreases attributes.len() - i,
{
    if i < 0 || i >= attributes.len() {
        Seq::empty()
    } else if is_uri_name(attributes[i].0) && attributes[i].1 is Some {
        seq![attributes[i].1->0] + uri_values_of(attributes, i + 1)
    } else {
        uri_values_of(attributes, i + 1)
    }
}

/// The values of the address attributes of a token.
pub open spec fn part_uri_values(part: PartModel) -> Seq<Seq<u8>> {
    match part {
        PartModel::Tag(tag) => uri_values_of(tag.attributes, 0),
        _ => Seq::empty(),
    }
}

/// The values of the address attributes of the tokens from `i` on, in the
/// order of the document.
pub open spec fn uri_values(parts: Seq<PartModel>, i: int) -> Seq<Seq<u8>>
    decreases parts.len() - i,
{
    if i < 0 || i >= parts.len() {
        Seq::empty()
    } else {
        part_uri_values(parts[i]) + uri_values(parts, i + 1)
    }
}

/// Of `values`, those that are no absolute address and are a relative path,
/// in their order.
pub open spec fn kept_paths(values: Seq<Seq<u8>>, absolute: Seq<bool>, relative: Seq<bool>) -> Seq<
    Seq<u8>,
>
    decreases values.len(),
{
    if values.len() == 0 {
        Seq::empty()
    } else {
        let front = kept_paths(values.drop_last(), absolute.drop_last(), relative.drop_last());
        if !absolute.last() && relative.last() {
            front.push(values.last())
        } else {
            front
        }
    }
}

/// The bytes of each string.
pub open spec fn texts(values: Seq<&str>) -> Seq<Seq<u8>> {
    values.map_values(|v: &str| v.spec_bytes())
}

/// For each string, whether it reads as an absolute address.
pub open spec fn url_flags(values: Seq<&str>) -> Seq<bool> {
    values.map_values(|v: &str| parses_as_url(v@))
}

/// The values of the address attributes of a token sequence, in order.
pub fn uri_attribute_values<'a>(parts: &[HTMLPart<'a>]) -> (values: Vec<&'a str>)
    ensures
        texts(values@) == uri_values(part_models(parts@), 0),
{
    let ghost models = part_models(parts@);
    let mut values: Vec<&'a str> = Vec::new();
    let mut i: usize = 0;
    assert(texts(values@) + uri_values(models, 0) =~= uri_values(models, 0));
    while i < parts.len()
        invariant
            i <= parts@.len(),
            models == part_models(parts@),
            uri_values(models, 0) == texts(values@) + uri_values(models, i as int),
        decreases parts@.len() - i,
    {
        let ghost before = texts(values@);
        assert(models[i as int] == parts@[i as int]@);
        match &parts[i] {
            HTMLPart::Tag(tag) => {
                let ghost attributes = attribute_models(tag.attributes@);
                let mut k: usize = 0;
                assert(texts(values@) + uri_values_of(attributes, 0) =~= before + part_uri_values(
                    models[i as int],
                ));
                while k < tag.attributes.len()
                    invariant
                        k <= tag.attributes@.len(),
                        attributes == attribute_models(tag.attributes@),
                        texts(values@) + uri_values_of(attributes, k as int) == before
                            + uri_values_of(attributes, 0),
                    decreases tag.attributes@.len() - k,
                {
                    let attribute = &tag.attributes[k];
                    if is_uri_attribute(attribute.0) {
                        match attribute.1 {
                            Some(value) => {
                                proof {
                                    assert(texts(values@.push(value)) =~= texts(values@).push(
                                        value.spec_bytes(),
                                    ));
                                    assert(texts(values@).push(value.spec_bytes()) + uri_values_of(
                                        attributes,
                                        k + 1,
                                    ) =~= texts(values@) + (seq![value.spec_bytes()]
                                        + uri_values_of(attributes, k + 1)));
                                }
                                values.push(value);
                            },
                            None => {},
                        }
                    }
                    k = k + 1;
                }
                assert(texts(values@) + Seq::<Seq<u8>>::empty() =~= texts(values@));
            },
            _ => {
                assert(before + Seq::<Seq<u8>>::empty() =~= before);
            },
        }
        assert(texts(values@) + uri_values(models, i + 1) =~= before + (part_uri_values(
            models[i as int],
        ) + uri_values(models, i + 1)));
        i = i + 1;
    }
    assert(texts(values@) + Seq::<Seq<u8>>::empty() =~= texts(values@));
    values
}

/// Of `values`, those that are no absolute address and are a relative path,
/// as `absolute` and `relative` say of each.
pub fn keep_relative_paths<'a>(values: &Vec<&'a str>, absolute: &Vec<bool>, relative: &Vec<bool>) -> (
    kept: Vec<&'a str>)
    requires
        absolute@.len() == values@.len(),
        relative@.len() == values@.len(),
    ensures
        texts(kept@) == kept_paths(texts(values@), absolute@, relative@),
{
    let mut kept: Vec<&'a str> = Vec::new();
    let mut i: usize = 0;
    assert(texts(kept@) =~= Seq::<Seq<u8>>::empty());
    assert(texts(values@).take(0) =~= Seq::<Seq<u8>>::empty());
    while i < values.len()
        invariant
            i <= values@.len(),
            absolute@.len() == values@.len(),
            relative@.len() == values@.len(),
            texts(kept@) == kept_paths(
                texts(values@).take(i as int),
                absolute@.take(i as int),
                relative@.take(i as int),
            ),
        decreases values@.len() - i,
    {
        proof {
            assert(texts(values@).take(i + 1).drop_last() =~= texts(values@).take(i as int));
            assert(absolute@.take(i + 1).drop_last() =~= absolute@.take(i as int));
            assert(relative@.take(i + 1).drop_last() =~= relative@.take(i as int));
            assert(texts(kept@.push(values@[i as int])) =~= texts(kept@).push(
                values@[i as int].spec_bytes(),
            ));
        }
        if !absolute[i] && relative[i] {
            kept.push(values[i]);
        }
        i = i + 1;
    }
    assert(texts(values@).take(i as int) =~= texts(values@));
    assert(absolute@.take(i as int) =~= absolute@);
    assert(relative@.take(i as int) =~= relative@);
    kept
}

/// Finds the files that a document refers to by a relative path.
///
/// These are the values of its `href` and `src` attributes that are no
/// absolute address and that the platform takes for a relative path, in the
/// order of the document. Fails where the text is no document.
pub fn find_relative_paths<'a>(html: &'a str) -> (r: Result<Vec<&'a str>, ParseHTMLError>)
    ensures
        match r {
            Ok(paths) => {
                &&& document(html.spec_bytes()) matches Parsed::Match { value, .. }
                &&& exists|values: Seq<&str>, relative: Seq<bool>|
                    {
                        &&& texts(values) == uri_values(value, 0)
                        &&& relative.len() == values.len()
                        &&& texts(paths@) == #[trigger] kept_paths(
                            texts(values),
                            url_flags(values),
                            relative,
                        )
                    }
            },
            Err(error) => {
                &&& document(html.spec_bytes()) matches Parsed::Mismatch { at, kind }
                &&& utf8(error.remainder@) == html.spec_bytes().subrange(
                    at,
                    html.spec_bytes().len() as int,
                )
                &&& error.kind == kind
            },
        },
{
    let parts = match parse_html(html) {
        Ok(parts) => parts,
        Err(error) => { return Err(error); },
    };
    let values = uri_attribute_values(parts.as_slice());
    let mut absolute: Vec<bool> = Vec::new();
    let mut relative: Vec<bool> = Vec::new();
    let mut i: usize = 0;
    while i < values.len()
        invariant
            i <= values@.len(),
            absolute@.len() == i,
            relative@.len() == i,
            forall|k: int| 0 <= k < i ==> absolute@[k] == parses_as_url(#[trigger] values@[k]@),
        decreases values@.len() - i,
    {
        absolute.push(is_absolute_url(values[i]));
        relative.push(is_relative_path(values[i]));
        i = i + 1;
    }
    assert(absolute@ =~= url_flags(values@));
    let paths = keep_relative_paths(&values, &absolute, &relative);
    Ok(paths)
}

} // verus!
