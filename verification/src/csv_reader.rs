use crate::schema::Schema;
use crate::textnum::parse_integer;
use crate::textnum::sp_parse_i64;
use crate::value::Value;
use crate::value::ValueView;
use vstd::prelude::*;

verus! {

/// Options of the CSV reader: the delimiter byte, whether the first
/// record carries the column names, an optional encoding label, and an
/// optional predeclared schema.
pub struct Options {
    pub delimiter: u8,
    pub has_headers: bool,
    pub encoding: Option<String>,
    pub schema: Option<Schema>,
}

impl Default for Options {
    /// Comma-separated, with headers, encoding auto-detected, schema
    /// discovered.
    fn default() -> (r: Options)
        ensures
            r.delimiter == 44,
            r.has_headers == true,
            r.encoding is None,
            r.schema is None,
    {
        Options { delimiter: 44, has_headers: true, encoding: None, schema: None }
    }
}

/// One decoded CSV cell as a value: the integer it strictly parses to,
/// or otherwise the text itself.
pub fn parse_bytes(text: &str) -> (r: Value)
    ensures
        match sp_parse_i64(text@) {
            Some(i) => r@ == ValueView::Int(i),
            None => r@ == ValueView::String(text@),
        },
{
    match parse_integer(text) {
        Ok(i) => Value::Int(i),
        Err(_) => Value::String(text.to_owned()),
    }
}

} // verus!
