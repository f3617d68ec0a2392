use vstd::prelude::*;

verus! {

/// Options of the Avro writer: emit only the derived schema, or the
/// schema with every record.
pub struct Options {
    pub only_schema: bool,
}

} // verus!
