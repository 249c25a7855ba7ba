//! The image classifier: decides from a file's content whether it is a
//! recognized image format.

use vstd::prelude::*;

verus! {

/// Whether a recognized image-format signature starts these bytes. The
/// recognizer is a fixed table of magic-number checks; its verdict is a
/// function of the bytes alone.
pub uninterp spec fn is_image_bytes(bytes: Seq<u8>) -> bool;

/// Relies on `imghdr::from_bytes`: returns `Some` exactly when a recognized
/// image signature starts the bytes, a function of the bytes alone. The
/// signature checks slice the first twelve bytes unconditionally, so callers
/// must supply at least that many.
#[verifier::external_body]
fn sniff_bytes(bytes: &Vec<u8>) -> (r: bool)
    requires
        bytes@.len() >= 12,
    ensures
        r == is_image_bytes(bytes@),
{
    imghdr::from_bytes(bytes).is_some()
}

/// A file's content counts as an image when it is long enough for every
/// signature check and the recognizer accepts it.
pub open spec fn spec_is_image(bytes: Seq<u8>) -> bool {
    bytes.len() >= 12 && is_image_bytes(bytes)
}

/// Whether a file's content is a recognized image. Content shorter than the
/// twelve bytes that the signature checks read is never an image.
pub fn is_image(bytes: &Vec<u8>) -> (r: bool)
    ensures
        r == spec_is_image(bytes@),
{
    if bytes.len() < 12 {
        false
    } else {
        sniff_bytes(bytes)
    }
}

} // verus!
