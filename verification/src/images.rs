//! Which files count as images.

use vstd::prelude::*;
use vstd::string::*;

verus! {

/// The lower-case form of a text, as `str::to_lowercase` of the standard
/// library gives it.
pub uninterp spec fn lowercase_of(text: Seq<char>) -> Seq<char>;

/// Whether a lower-case extension is one of an image file.
pub open spec fn is_image_name(lowered: Seq<char>) -> bool {
    lowered == "jpg"@ || lowered == "jpeg"@ || lowered == "png"@
}

/// Calls `str::to_lowercase` of the standard library.  Believed, not proved:
/// the result depends on the text alone.  Nothing is claimed of what it is.
#[verifier::external_body]
fn to_lowercase(text: &str) -> (lowered: String)
    ensures
        lowered@ == lowercase_of(text@),
{
    text.to_lowercase()
}

/// Checks if an extension that is already in lower case is an image
/// extension: `jpg`, `jpeg` or `png`.
pub fn lowercase_is_image(lowered: &String) -> (r: bool)
    ensures
        r == is_image_name(lowered@),
{
    *lowered == String::from_str("jpg") || *lowered == String::from_str("jpeg") || *lowered
        == String::from_str("png")
}

/// Checks if the given file extension is an image extension, whatever the
/// case of its letters.
pub fn extension_is_image(extension: &str) -> (r: bool)
    ensures
        r == is_image_name(lowercase_of(extension@)),
{
    let lowered = to_lowercase(extension);
    lowercase_is_image(&lowered)
}

} // verus!
