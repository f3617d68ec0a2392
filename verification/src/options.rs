use vstd::prelude::*;

verus! {

/// Which frontend reads the input, with its per-format options.
pub enum ReaderOptions {
    Csv(crate::csv_reader::Options),
    Json(crate::json_reader::Options),
    Excel(crate::excel_reader::Options),
    Avro(crate::avro_reader::Options),
}

/// Which sink renders the output, with its per-format options.
pub enum WriterOptions {
    Csv(crate::csv_writer::Options),
    Json(crate::json_writer::Options),
    Sql(crate::sql_writer::Options),
    Html,
    Xml,
    Avro(crate::avro_writer::Options),
}

} // verus!
