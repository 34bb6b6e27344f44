//! The decision half of image transcoding.  The codecs themselves are
//! outside collaborators; this module decides when to transcode and which
//! bytes to serve afterwards.

use vstd::prelude::*;

verus! {

/// What to do with an image response of a given content type.
#[derive(Debug, Clone, Copy, PartialEq, Eq, Structural)]
pub enum TranscodePlan {
    /// Re-encode as AVIF (WebP source, or JPEG with client opt-in).
    ToAvif,
    /// Re-encode as WebP (JPEG source).
    ToWebp,
    /// Leave the body untouched.
    Keep,
}

/// Picks the transcoding for a content type: WebP sources, and JPEG sources
/// when the client opted in, become AVIF; other JPEG sources become WebP;
/// everything else passes through.  Nothing is transcoded when transcoding
/// is disabled or AVIF support is off.
pub fn plan_transcode(content_type: &str, allowed: bool, avif_supported: bool, avif_opt_in: bool)
    -> (r: TranscodePlan)
    ensures
        r == (if allowed && avif_supported && (content_type@ == "image/webp"@ || (content_type@
            == "image/jpeg"@ && avif_opt_in)) {
            TranscodePlan::ToAvif
        } else if allowed && content_type@ == "image/jpeg"@ {
            TranscodePlan::ToWebp
        } else {
            TranscodePlan::Keep
        }),
{
    let cs = crate::strutil::str_to_chars(content_type);
    let is_webp = crate::strutil::chars_eq_str(cs.as_slice(), "image/webp");
    let is_jpeg = crate::strutil::chars_eq_str(cs.as_slice(), "image/jpeg");
    if allowed && avif_supported && (is_webp || (is_jpeg && avif_opt_in)) {
        TranscodePlan::ToAvif
    } else if allowed && is_jpeg {
        TranscodePlan::ToWebp
    } else {
        TranscodePlan::Keep
    }
}

/// Chooses between the original bytes and a WebP re-encoding: the encoding
/// is served only when it is strictly smaller; otherwise, and when encoding
/// failed, the original passes through.  The flag says whether the WebP
/// encoding was kept.
pub fn select_webp(original: Vec<u8>, encoded: Option<Vec<u8>>) -> (r: (Vec<u8>, bool))
    ensures
        match encoded {
            Some(e) => if e@.len() < original@.len() {
                r.0@ == e@ && r.1
            } else {
                r.0@ == original@ && !r.1
            },
            None => r.0@ == original@ && !r.1,
        },
{
    match encoded {
        Some(e) => {
            if e.len() < original.len() {
                (e, true)
            } else {
                (original, false)
            }
        },
        None => (original, false),
    }
}

/// Chooses between the original bytes and an AVIF re-encoding: the encoding
/// is served whenever it succeeded; a failed encoding falls back to the
/// original bytes.
pub fn select_avif(original: Vec<u8>, encoded: Option<Vec<u8>>) -> (r: (Vec<u8>, bool))
    ensures
        match encoded {
            Some(e) => r.0@ == e@ && r.1,
            None => r.0@ == original@ && !r.1,
        },
{
    match encoded {
        Some(e) => (e, true),
        None => (original, false),
    }
}

} // verus!
