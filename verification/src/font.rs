//! What the library holds of a parsed font.
//!
//! The library asks nothing of a face itself: whoever has the face reads
//! its numbers and hands them in. The generator carries the face for its
//! caller.

use vstd::prelude::*;

verus! {

/// A parsed font face of `ttf_parser`. Nothing inside it is visible here.
#[verifier::external_type_specification]
#[verifier::external_body]
pub struct ExFace<'a>(ttf_parser::Face<'a>);

/// A reference to a parsed font face.
pub type FaceRef<'f> = &'f ttf_parser::Face<'f>;

/// The height of a face: its ascender less its descender.
pub fn height_of(ascender: i16, descender: i16) -> (height: i32)
    ensures
        height == ascender - descender,
{
    ascender as i32 - descender as i32
}

/// The glyph that stands for a character: the one that the face has for
/// it, or else the glyph zero, which fonts keep for missing characters.
pub fn glyph_or_fallback(found: Option<u16>) -> (glyph: u16)
    ensures
        glyph == match found {
            Some(id) => id,
            None => 0u16,
        },
{
    match found {
        Some(id) => id,
        None => 0,
    }
}

} // verus!
