//! Image payload resolution: data URLs are parsed and decoded here; remote
//! URLs are classified and handed back for the caller's HTTP client to
//! fetch, with the fetched bytes decoded here. Raster decoding and base64
//! decoding are the work of outside crates behind trusted wrappers.

use vstd::prelude::*;
use crate::api::ApiError;
use crate::messages::{ImagePayload, url_spec};
use crate::text::{matches_at, find_from, chars_of, vec_find_from, vec_matches_at};
use base64::Engine;

verus! {

/// Declares image::DynamicImage, the decoded raster type carried through
/// the library; its contents stay opaque here.
#[verifier::external_type_specification]
#[verifier::external_body]
pub struct ExDynamicImage(image::DynamicImage);

/// What the standard base64 alphabet (with padding) decodes a text to, if
/// anything: a function of the text alone.
pub uninterp spec fn base64_decode_of(s: Seq<char>) -> Option<Seq<u8>>;

/// Whether the bytes decode as a raster image under format guessing: a
/// function of the bytes alone.
pub uninterp spec fn image_decode_ok(bytes: Seq<u8>) -> bool;

/// Relies on base64's Engine::decode with the STANDARD engine: decodes the
/// text, or reports why it is not valid base64. The outcome depends on the
/// text alone.
#[verifier::external_body]
fn b64_decode(payload: &str) -> (r: Result<Vec<u8>, String>)
    ensures
        r is Ok <==> base64_decode_of(payload@) is Some,
        r is Ok ==> r->Ok_0@ == base64_decode_of(payload@)->Some_0,
{
    base64::engine::general_purpose::STANDARD.decode(payload).map_err(|e| e.to_string())
}

/// Relies on image::load_from_memory: decodes raster bytes, guessing the
/// format, or reports why the bytes are not a decodable image. Whether it
/// succeeds depends on the bytes alone.
#[verifier::external_body]
fn decode_image_bytes(bytes: &[u8]) -> (r: Result<image::DynamicImage, String>)
    ensures
        r is Ok <==> image_decode_ok(bytes@),
{
    image::load_from_memory(bytes).map_err(|e| e.to_string())
}

/// Position of the comma separating a data URL's metadata from its payload.
pub open spec fn data_comma(s: Seq<char>) -> Option<int> {
    find_from(s, 0, ","@)
}

/// The data URL (after the `data:` scheme) is well-formed: it has a comma
/// and its metadata declares base64 encoding.
pub open spec fn data_url_valid(s: Seq<char>) -> bool {
    &&& data_comma(s) is Some
    &&& data_comma(s)->Some_0 >= 7
    &&& matches_at(s, data_comma(s)->Some_0 - 7, ";base64"@)
}

/// The base64 payload of a data URL: everything past the comma.
pub open spec fn data_url_payload(s: Seq<char>) -> Seq<char> {
    s.subrange(data_comma(s)->Some_0 + 1, s.len() as int)
}

/// Decodes the part of a data URL after the `data:` scheme into a raster
/// image. Rejections are always client faults: a missing comma, metadata
/// without base64, an undecodable payload, or undecodable image bytes.
pub fn load_data_url(data: &str) -> (r: Result<image::DynamicImage, ApiError>)
    ensures
        r is Err ==> r->Err_0 is BadRequest,
        data_comma(data@) is None ==> r is Err && crate::api::error_message_spec(r->Err_0)
            == "invalid data URL"@,
        data_comma(data@) is Some && !data_url_valid(data@) ==> r is Err
            && crate::api::error_message_spec(r->Err_0)
            == "data URLs must specify base64 encoding"@,
        data_url_valid(data@) && base64_decode_of(data_url_payload(data@)) is None ==> r is Err
            && matches_at(
            crate::api::error_message_spec(r->Err_0),
            0,
            "invalid base64 image payload: "@,
        ),
        data_url_valid(data@) && base64_decode_of(data_url_payload(data@)) is Some && r is Err
            ==> matches_at(
            crate::api::error_message_spec(r->Err_0),
            0,
            "failed to decode inline image: "@,
        ),
        data_url_valid(data@) && base64_decode_of(data_url_payload(data@)) is Some ==> (r is Ok
            <==> image_decode_ok(base64_decode_of(data_url_payload(data@))->Some_0)),
        r is Ok ==> data_url_valid(data@) && base64_decode_of(data_url_payload(data@)) is Some,
{
    let v = chars_of(data);
    let comma = chars_of(",");
    proof {
        reveal_strlit(",");
    }
    let c = match vec_find_from(&v, 0, &comma) {
        Some(c) => c,
        None => {
            return Err(ApiError::BadRequest(String::from_str("invalid data URL")));
        },
    };
    proof {
        crate::text::lemma_find_from_some(v@, 0, ","@, c as int);
    }
    let marker = chars_of(";base64");
    if !(c >= 7 && vec_matches_at(&v, c - 7, &marker)) {
        return Err(
            ApiError::BadRequest(String::from_str("data URLs must specify base64 encoding")),
        );
    }
    let n = v.len();
    proof {
        reveal_strlit(",");
        assert(matches_at(v@, c as int, ","@));
        assert(c < n);
    }
    let payload = data.substring_char(c + 1, n);
    let decoded = match b64_decode(payload) {
        Ok(bytes) => bytes,
        Err(detail) => {
            let mut m = String::from_str("invalid base64 image payload: ");
            m.append(detail.as_str());
            proof {
                assert(m@.subrange(0, "invalid base64 image payload: "@.len() as int)
                    =~= "invalid base64 image payload: "@);
            }
            return Err(ApiError::BadRequest(m));
        },
    };
    match decode_image_bytes(decoded.as_slice()) {
        Ok(img) => Ok(img),
        Err(detail) => {
            let mut m = String::from_str("failed to decode inline image: ");
            m.append(detail.as_str());
            proof {
                assert(m@.subrange(0, "failed to decode inline image: "@.len() as int)
                    =~= "failed to decode inline image: "@);
            }
            Err(ApiError::BadRequest(m))
        },
    }
}

/// Decodes the body fetched from a remote image URL.
pub fn decode_remote_image(bytes: &[u8]) -> (r: Result<image::DynamicImage, ApiError>)
    ensures
        r is Ok <==> image_decode_ok(bytes@),
        r is Err ==> r->Err_0 is BadRequest && matches_at(
            crate::api::error_message_spec(r->Err_0),
            0,
            "failed to decode remote image: "@,
        ),
{
    match decode_image_bytes(bytes) {
        Ok(img) => Ok(img),
        Err(detail) => {
            let mut m = String::from_str("failed to decode remote image: ");
            m.append(detail.as_str());
            proof {
                assert(m@.subrange(0, "failed to decode remote image: "@.len() as int)
                    =~= "failed to decode remote image: "@);
            }
            Err(ApiError::BadRequest(m))
        },
    }
}

/// A resolved image reference: a raster decoded from an inline data URL, or
/// a remote URL still to be fetched over HTTP.
#[derive(Debug)]
pub enum ImageFetch {
    Ready(image::DynamicImage),
    Remote(String),
}

pub open spec fn is_data_url(u: Seq<char>) -> bool {
    matches_at(u, 0, "data:"@)
}

pub open spec fn data_rest(u: Seq<char>) -> Seq<char> {
    u.subrange("data:"@.len() as int, u.len() as int)
}

pub open spec fn is_remote_url(u: Seq<char>) -> bool {
    matches_at(u, 0, "http://"@) || matches_at(u, 0, "https://"@)
}

/// Resolves one image payload: inline data URLs are decoded on the spot,
/// `http(s)` URLs are handed back for fetching, anything else is rejected.
pub fn load_image(payload: &ImagePayload) -> (r: Result<ImageFetch, ApiError>)
    ensures
        r is Err ==> r->Err_0 is BadRequest,
        is_data_url(url_spec(*payload)) ==> {
            let rest = data_rest(url_spec(*payload));
            &&& (r is Ok ==> r->Ok_0 is Ready && data_url_valid(rest) && base64_decode_of(
                data_url_payload(rest),
            ) is Some)
            &&& (data_comma(rest) is None ==> r is Err && crate::api::error_message_spec(r->Err_0)
                == "invalid data URL"@)
            &&& (data_comma(rest) is Some && !data_url_valid(rest) ==> r is Err
                && crate::api::error_message_spec(r->Err_0)
                == "data URLs must specify base64 encoding"@)
            &&& (data_url_valid(rest) && base64_decode_of(data_url_payload(rest)) is None ==> r
                is Err && matches_at(
                crate::api::error_message_spec(r->Err_0),
                0,
                "invalid base64 image payload: "@,
            ))
            &&& (data_url_valid(rest) && base64_decode_of(data_url_payload(rest)) is Some ==> (r
                is Ok <==> image_decode_ok(base64_decode_of(data_url_payload(rest))->Some_0)))
        },
        !is_data_url(url_spec(*payload)) && is_remote_url(url_spec(*payload)) ==> r is Ok && (
        match r->Ok_0 {
            ImageFetch::Remote(u) => u@ == url_spec(*payload),
            _ => false,
        }),
        !is_data_url(url_spec(*payload)) && !is_remote_url(url_spec(*payload)) ==> r is Err
            && crate::api::error_message_spec(r->Err_0)
            == "only data: URIs or http(s) image URLs are supported"@,
{
    let url = payload.url();
    let v = chars_of(url);
    proof {
        reveal_strlit("data:");
    }
    if vec_matches_at(&v, 0, &chars_of("data:")) {
        let rest = url.substring_char(5, v.len());
        match load_data_url(rest) {
            Ok(img) => Ok(ImageFetch::Ready(img)),
            Err(e) => Err(e),
        }
    } else if vec_matches_at(&v, 0, &chars_of("http://")) || vec_matches_at(
        &v,
        0,
        &chars_of("https://"),
    ) {
        Ok(ImageFetch::Remote(String::from_str(url)))
    } else {
        Err(
            ApiError::BadRequest(
                String::from_str("only data: URIs or http(s) image URLs are supported"),
            ),
        )
    }
}

} // verus!
