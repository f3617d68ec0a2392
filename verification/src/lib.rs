pub mod avro_reader;
pub mod avro_writer;
pub mod coerce;
pub mod csv_reader;
pub mod csv_writer;
pub mod error;
pub mod excel_reader;
pub mod flatten;
pub mod html_writer;
pub mod infer;
pub mod io;
pub mod json_reader;
pub mod json_writer;
pub mod jsontext;
pub mod laws;
pub mod options;
pub mod reader;
pub mod schema;
pub mod schema_text;
pub mod sql_writer;
pub mod textnum;
pub mod unify;
pub mod value;

pub use crate::error::Error;
pub use crate::options::ReaderOptions;
pub use crate::options::WriterOptions;
pub use crate::reader::ValueReader;
pub use crate::schema::DataType;
pub use crate::schema::Field;
pub use crate::schema::FieldMeta;
pub use crate::schema::Schema;
pub use crate::value::Value;
pub use crate::value::ValueView;
