//! Why a rendering is given up.

use vstd::prelude::*;

verus! {

/// A failure that ends a rendering. Nothing is rendered in part.
#[derive(Debug, Clone, Copy, PartialEq, Eq, Structural)]
pub enum RenderError {
    /// The directory that holds a segment could not be listed.
    UnreadableListing,
    /// A name that had to be shown or compared is not text.
    UndecodableName,
}

/// A text or a failure, the text taken as the characters it holds.
pub open spec fn text_of(found: Result<String, RenderError>) -> Result<Seq<char>, RenderError> {
    match found {
        Ok(text) => Ok(text@),
        Err(error) => Err(error),
    }
}

} // verus!
