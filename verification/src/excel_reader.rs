use vstd::prelude::*;

verus! {

/// The workbook format a spreadsheet source is read as.
pub enum Format {
    Xls,
    Xlsx,
    Ods,
}

/// Options of the spreadsheet reader: the sheet to read and the
/// workbook format.
pub struct Options {
    pub sheet_name: String,
    pub format: Format,
}

} // verus!
