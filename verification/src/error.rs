//! The errors of the form logic.

use vstd::prelude::*;

verus! {

/// Why a form could not be read.
#[derive(Clone, Copy, Debug, PartialEq, Eq, Structural)]
pub enum PdfError {
    /// A reference names an object that the document does not hold.
    NullRef { obj_nr: u64 },
    /// The fields are nested deeper than the document has fields.
    MaxDepth,
    /// The document has no interactive form.
    MissingForm,
}

} // verus!
