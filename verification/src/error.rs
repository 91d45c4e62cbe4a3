//! What can go wrong while a glyph is meshed.

use vstd::prelude::*;
use vstd::string::StringExecFns;

verus! {

/// The error type of the outside triangulation engine. Nothing is known of
/// a value of it: it is handed on as it comes.
#[verifier::external_type_specification]
#[verifier::external_body]
pub struct ExTessellationError(lyon_tessellation::TessellationError);

/// An error that can occur while the outline of a glyph is meshed.
#[derive(Debug, PartialEq)]
pub enum Error {
    /// The outline has a chain that was drawn and not closed.
    OpenContour,
    /// A contour of the outline has fewer than three points, or names a
    /// point that the outline does not have.
    MalformedOutline,
    /// The triangulation engine refused the outline.
    Tessellation(lyon_tessellation::TessellationError),
}

/// The text that the triangulation engine writes for one of its errors.
pub uninterp spec fn engine_text(e: lyon_tessellation::TessellationError) -> Seq<char>;

/// The `Display` of `lyon_tessellation::TessellationError`: the text that
/// the engine writes for one of its errors. The text depends on the error
/// alone.
#[verifier::external_body]
fn tessellation_text(e: &lyon_tessellation::TessellationError) -> (text: String)
    ensures
        text@ == engine_text(*e),
{
    format!("{e}")
}

impl Error {
    /// The text that describes the error.
    pub open spec fn spec_message(self) -> Seq<char> {
        match self {
            Error::OpenContour => "The glyph outline has an open contour"@,
            Error::MalformedOutline => "The glyph outline is malformed"@,
            Error::Tessellation(e) => "The glyph outline could not be tesselated: "@
                + engine_text(e),
        }
    }

    /// The text that describes the error. For an error of the engine it
    /// says that the outline could not be tessellated, and then what the
    /// engine says of its error.
    pub fn message(&self) -> (text: String)
        ensures
            text@ == self.spec_message(),
    {
        match self {
            Error::OpenContour => "The glyph outline has an open contour".to_string(),
            Error::MalformedOutline => "The glyph outline is malformed".to_string(),
            Error::Tessellation(e) => {
                let detail = tessellation_text(e);
                "The glyph outline could not be tesselated: ".to_string().concat(detail.as_str())
            },
        }
    }
}

} // verus!
