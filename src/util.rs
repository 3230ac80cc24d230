use crate::jwks::text_is;
use vstd::prelude::*;

verus! {

/// The file extension for an image content type: `png`, `jpg` or `webp`,
/// and `bin` for anything else.
pub open spec fn extension_of(ct: Seq<char>) -> Seq<char> {
    if ct == "image/png"@ {
        "png"@
    } else if ct == "image/jpeg"@ {
        "jpg"@
    } else if ct == "image/webp"@ {
        "webp"@
    } else {
        "bin"@
    }
}

pub fn extension_from_content_type(ct: &str) -> (r: &'static str)
    ensures
        r@ == extension_of(ct@),
{
    if text_is(ct, "image/png") {
        "png"
    } else if text_is(ct, "image/jpeg") {
        "jpg"
    } else if text_is(ct, "image/webp") {
        "webp"
    } else {
        "bin"
    }
}

} // verus!
