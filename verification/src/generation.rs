//! Post-generation assembly: turning the decoded, normalized model output
//! into the structured result (text, token counts, extracted boxes, optional
//! annotated image), with extraction failures degrading the result rather
//! than failing the request.

use vstd::prelude::*;
use crate::bbox::{BoundingBox, extract_bounding_boxes, extract_ok, extract_spec, views_of};

verus! {

/// Everything one finished generation produced.
pub struct GenerationResult {
    pub text: String,
    pub prompt_tokens: usize,
    pub response_tokens: usize,
    pub bounding_boxes: Vec<BoundingBox>,
    pub annotated_image: Option<String>,
}

/// The token ids the tokenizer can accept: those representable as `u32`, in
/// order, the rest dropped.
pub open spec fn kept_tokens(ids: Seq<i64>) -> Seq<u32>
    decreases ids.len(),
{
    if ids.len() == 0 {
        Seq::empty()
    } else {
        let pre = kept_tokens(ids.drop_last());
        if 0 <= ids.last() <= u32::MAX {
            pre.push(ids.last() as u32)
        } else {
            pre
        }
    }
}

/// Narrows raw token ids to the tokenizer's id type, dropping the
/// unrepresentable ones.
pub fn filter_token_ids(ids: &Vec<i64>) -> (r: Vec<u32>)
    ensures
        r@ == kept_tokens(ids@),
{
    let mut r: Vec<u32> = Vec::new();
    let mut i: usize = 0;
    while i < ids.len()
        invariant
            i <= ids@.len(),
            r@ == kept_tokens(ids@.subrange(0, i as int)),
        decreases ids@.len() - i,
    {
        proof {
            assert(ids@.subrange(0, i + 1).drop_last() =~= ids@.subrange(0, i as int));
            assert(ids@.subrange(0, i + 1).last() == ids@[i as int]);
        }
        let id = ids[i];
        if id >= 0 && id <= (u32::MAX as i64) {
            r.push(id as u32);
        }
        i = i + 1;
    }
    proof {
        assert(ids@.subrange(0, ids@.len() as int) =~= ids@);
    }
    r
}

/// The token budget a request settles on: its explicit output cap, else its
/// generic cap, else the server default.
pub fn effective_max_tokens(
    max_output_tokens: Option<usize>,
    max_tokens: Option<usize>,
    server_default: usize,
) -> (r: usize)
    ensures
        max_output_tokens is Some ==> r == max_output_tokens->Some_0,
        max_output_tokens is None && max_tokens is Some ==> r == max_tokens->Some_0,
        max_output_tokens is None && max_tokens is None ==> r == server_default,
{
    match max_output_tokens {
        Some(v) => v,
        None => match max_tokens {
            Some(v) => v,
            None => server_default,
        },
    }
}

/// Assembles the result from the normalized output text and the token
/// counts. Box extraction runs here; its failure never fails the request —
/// the result simply carries no boxes. No annotation is attached yet.
pub fn finish_generation(normalized: String, prompt_tokens: usize, response_tokens: usize) -> (r:
    GenerationResult)
    ensures
        r.text == normalized,
        r.prompt_tokens == prompt_tokens,
        r.response_tokens == response_tokens,
        extract_ok(normalized@) ==> views_of(r.bounding_boxes@) == extract_spec(normalized@),
        !extract_ok(normalized@) ==> r.bounding_boxes@.len() == 0,
        r.annotated_image is None,
{
    let bounding_boxes = match extract_bounding_boxes(normalized.as_str()) {
        Ok(boxes) => boxes,
        Err(_) => Vec::new(),
    };
    GenerationResult {
        text: normalized,
        prompt_tokens,
        response_tokens,
        bounding_boxes,
        annotated_image: None,
    }
}

/// An annotated image is rendered only when boxes were found and a source
/// image exists to draw them on.
pub fn wants_annotation(result: &GenerationResult, image_count: usize) -> (r: bool)
    ensures
        r == (result.bounding_boxes@.len() > 0 && image_count > 0),
{
    result.bounding_boxes.len() > 0 && image_count > 0
}

/// Attaches the encoded annotated image to the result, leaving everything
/// else as it was.
pub fn attach_annotation(result: &mut GenerationResult, encoded: String)
    ensures
        final(result).text == old(result).text,
        final(result).prompt_tokens == old(result).prompt_tokens,
        final(result).response_tokens == old(result).response_tokens,
        final(result).bounding_boxes == old(result).bounding_boxes,
        final(result).annotated_image == Some(encoded),
{
    result.annotated_image = Some(encoded);
}

} // verus!
