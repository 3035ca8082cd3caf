use vstd::prelude::*;

verus! {

/// Why a schedule could not be extracted from a document.
#[derive(Debug, Clone, Copy, PartialEq, Eq, Structural)]
pub enum PDFJsonError {
    /// The document could not be read.
    PDFReadError,
    /// The table extraction tool failed or produced output that is not a table list.
    ExtractionToolError,
    /// A table does not have the shape of a substitution table.
    MalformedTable,
    /// The document text holds no `Datum: ` label followed by a line end.
    DateNotFound,
    /// The text after the `Datum: ` label is not a valid day-first date.
    MalformedDate,
}

} // verus!
