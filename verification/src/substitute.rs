//! Putting the output of the commands in the place of their directives.

use crate::embeds::{part_or_embed_models, HTMLPartOrEmbed, PartOrEmbedModel};
use crate::list::reversed;
use crate::text::utf8;
use crate::types::{part_models, HTMLPart, PartModel};
use std::borrow::Cow;
use vstd::prelude::*;
use vstd::string::*;

verus! {

/// The outputs as bytes.
pub open spec fn output_models(outputs: Seq<Option<String>>) -> Seq<Option<Seq<u8>>> {
    outputs.map_values(
        |output: Option<String>|
            match output {
                Some(text) => Some(utf8(text@)),
                None => None,
            },
    )
}

/// The output that belongs to the request number `k`: `None` where there
/// are fewer outputs than that.
pub open spec fn output_at(outputs: Seq<Option<Seq<u8>>>, k: int) -> Option<Seq<u8>> {
    if 0 <= k < outputs.len() {
        outputs[k]
    } else {
        None
    }
}

/// The tokens that the items from `i` on give once each request is
/// replaced by its output, where `k` requests came before them: a token
/// stays, a request whose command gave output becomes that output as text,
/// and a request without output leaves nothing.
pub open spec fn substituted_from(
    items: Seq<PartOrEmbedModel>,
    i: int,
    outputs: Seq<Option<Seq<u8>>>,
    k: int,
) -> Seq<PartModel>
    decreases items.len() - i,
{
    if i < 0 || i >= items.len() {
        Seq::empty()
    } else {
        match items[i] {
            PartOrEmbedModel::Part(part) => seq![part] + substituted_from(items, i + 1, outputs, k),
            PartOrEmbedModel::Embed(_) => match output_at(outputs, k) {
                Some(text) => seq![PartModel::Text(text)] + substituted_from(
                    items,
                    i + 1,
                    outputs,
                    k + 1,
                ),
                None => substituted_from(items, i + 1, outputs, k + 1),
            },
        }
    }
}

/// The tokens that `items` give once each request is replaced by its
/// output, the outputs taken in the order of the requests.
pub open spec fn substituted(items: Seq<PartOrEmbedModel>, outputs: Seq<Option<Seq<u8>>>) -> Seq<
    PartModel,
> {
    substituted_from(items, 0, outputs, 0)
}

/// Replaces each request among `items` by the output of its command.
///
/// `outputs` holds, for each request in order, what its command wrote, or
/// `None` where the command could not be run or wrote no text; such a
/// request leaves nothing behind, and so does one for which `outputs` holds
/// nothing at all.
pub fn substitute<'a>(items: Vec<HTMLPartOrEmbed<'a>>, outputs: Vec<Option<String>>) -> (parts: Vec<
    HTMLPart<'a>,
>)
    ensures
        part_models(parts@) == substituted(part_or_embed_models(items@), output_models(outputs@)),
{
    let ghost models = part_or_embed_models(items@);
    let ghost given = output_models(outputs@);
    let mut pending_items = reversed(items);
    let mut pending_outputs = reversed(outputs);
    let mut parts: Vec<HTMLPart<'a>> = Vec::new();
    let ghost mut i: int = 0;
    let ghost mut k: int = 0;
    assert(part_models(parts@) + substituted_from(models, 0, given, 0) =~= substituted(
        models,
        given,
    ));
    loop
        invariant
            models == part_or_embed_models(items@),
            given == output_models(outputs@),
            0 <= i <= models.len(),
            0 <= k,
            pending_items@.len() == models.len() - i,
            pending_outputs@.len() == (if k <= given.len() {
                given.len() - k
            } else {
                0
            }),
            forall|j: int|
                0 <= j < pending_items@.len() ==> pending_items@[j] == items@[items@.len() - 1 - j],
            forall|j: int|
                0 <= j < pending_outputs@.len() ==> pending_outputs@[j] == outputs@[outputs@.len()
                    - 1 - j],
            substituted(models, given) == part_models(parts@) + substituted_from(
                models,
                i,
                given,
                k,
            ),
        decreases models.len() - i,
    {
        let ghost done = part_models(parts@);
        match pending_items.pop() {
            None => {
                assert(done + Seq::<PartModel>::empty() =~= done);
                return parts;
            },
            Some(item) => {
                proof {
                    assert(item == items@[i]);
                    assert(models[i] == item@);
                }
                match item {
                    HTMLPartOrEmbed::Part(part) => {
                        proof {
                            assert(part_models(parts@.push(part)) =~= done.push(part@));
                            assert(done.push(part@) + substituted_from(models, i + 1, given, k)
                                =~= done + (seq![part@] + substituted_from(
                                models,
                                i + 1,
                                given,
                                k,
                            )));
                        }
                        parts.push(part);
                    },
                    HTMLPartOrEmbed::Embed(_) => {
                        match pending_outputs.pop() {
                            Some(Some(text)) => {
                                let part = HTMLPart::Text(Cow::Owned(text));
                                proof {
                                    assert(given[k] == Some(utf8(text@)));
                                    assert(part_models(parts@.push(part)) =~= done.push(part@));
                                    assert(done.push(part@) + substituted_from(
                                        models,
                                        i + 1,
                                        given,
                                        k + 1,
                                    ) =~= done + (seq![part@] + substituted_from(
                                        models,
                                        i + 1,
                                        given,
                                        k + 1,
                                    )));
                                }
                                parts.push(part);
                            },
                            Some(None) => {
                                assert(given[k] is None);
                            },
                            None => {},
                        }
                        proof {
                            k = k + 1;
                        }
                    },
                }
                proof {
                    i = i + 1;
                }
            },
        }
    }
}

} // verus!
