use crate::column::TypeTag;
use vstd::prelude::*;

verus! {

/// Typed failures of the table-building pipeline.
///
/// Structural failures abort a build entirely; no partial table is returned.
/// Row and column positions are zero-based indices into the sheet's rows and
/// the header, respectively.
#[derive(Debug, PartialEq, Eq)]
pub enum TableError {
    /// The sheet has no rows at all, so no header can be read.
    EmptySheet,
    /// The sheet has a header but no data row to infer column types from.
    MissingSampleRow,
    /// A cell of error kind (or of a kind outside the closed cell taxonomy)
    /// was met where a typed value was required, or a typed cell streamed
    /// into a boolean or string column of another type.
    UnclassifiableCell { row: usize, col: usize },
    /// A value of column `column` could not be converted from `from` to `to`.
    CastFailure { column: String, from: TypeTag, to: TypeTag },
    /// Strict table construction was given columns of unequal lengths.
    ColumnLengthMismatch,
    /// The workbook container could not be opened or parsed.
    WorkbookOpenFailure,
    /// The named sheet does not exist in the workbook.
    SheetNotFound,
    /// A header was requested from a sheet that has no rows.
    MissingHeader,
}

} // verus!
