//! Serving-layer library for a vision-language OCR model: message flattening
//! into a single-turn prompt, a streaming-emission state machine, and the
//! bounding-box tag codec applied to raw model output.

pub mod api;
pub mod bbox;
pub mod generation;
pub mod images;
pub mod messages;
pub mod stream;
pub mod text;

use vstd::prelude::*;

verus! {

/// Health probe body served by the API surface.
pub fn health() -> (r: &'static str)
    ensures
        r@ == "ok"@,
{
    "ok"
}

} // verus!
