use crate::error::Error;
use crate::jsontext::json_of;
use crate::jsontext::to_json;
use crate::schema::fields_view;
use crate::schema::lemma_fields_view;
use crate::schema::DataType;
use crate::schema::Field;
use crate::schema::FieldView;
use crate::schema::TypeView;
use crate::textnum::int_text;
use crate::textnum::int_to_string;
use crate::value::Value;
use crate::value::ValueView;
use vstd::prelude::*;
use vstd::string::StrSliceExecFns;
use vstd::utf8::encode_utf8;

verus! {

/// The SQL dialect the emitted statements follow.
pub enum Syntax {
    Postgres,
    Mysql,
    Sqlite,
}

/// Options of the SQL writer.
pub struct Options {
    pub syntax: Syntax,
    pub create_table: bool,
    pub table_name: String,
}

/// A single-quote byte doubled, every other byte unchanged.
pub open spec fn sp_sql_escape_byte(b: u8) -> Seq<u8> {
    if b == 39 {
        seq![39u8, 39u8]
    } else {
        seq![b]
    }
}

/// The single-quote doubling of a byte sequence.
pub open spec fn sp_sql_escape(bs: Seq<u8>) -> Seq<u8>
    decreases bs.len(),
{
    if bs.len() == 0 {
        Seq::empty()
    } else {
        sp_sql_escape(bs.drop_last()) + sp_sql_escape_byte(bs.last())
    }
}

/// A quoted SQL string literal: the bytes with quotes doubled, between
/// single quotes.
pub open spec fn sp_sql_quote(bs: Seq<u8>) -> Seq<u8> {
    seq![39u8] + sp_sql_escape(bs) + seq![39u8]
}

/// The SQL literal of one value: numbers and floats keep their decimal
/// text, booleans render as keywords, strings are quoted with their
/// quotes doubled, arrays and objects are quoted JSON text, and null is
/// the `NULL` keyword.
pub open spec fn sp_sql_value(v: ValueView) -> Seq<u8> {
    match v {
        ValueView::Int(i) => encode_utf8(int_text(i as int)),
        ValueView::Float(t) => encode_utf8(t),
        ValueView::Bool(b) => if b {
            encode_utf8("TRUE"@)
        } else {
            encode_utf8("FALSE"@)
        },
        ValueView::String(s) => sp_sql_quote(encode_utf8(s)),
        ValueView::Null => encode_utf8("NULL"@),
        _ => sp_sql_quote(json_of(v)),
    }
}

/// Append the single-quote doubling of a byte vector.
fn push_sql_escaped(out: &mut Vec<u8>, bs: &Vec<u8>)
    ensures
        final(out)@ == old(out)@ + sp_sql_escape(bs@),
{
    let mut i: usize = 0;
    proof {
        assert(sp_sql_escape(bs@.take(0)) =~= Seq::<u8>::empty());
        assert(out@ =~= old(out)@ + sp_sql_escape(bs@.take(0)));
    }
    while i < bs.len()
        invariant
            i <= bs@.len(),
            out@ == old(out)@ + sp_sql_escape(bs@.take(i as int)),
        decreases bs@.len() - i,
    {
        let b = bs[i];
        let ghost before = out@;
        proof {
            assert(bs@.take(i as int + 1).drop_last() =~= bs@.take(i as int));
            assert(bs@.take(i as int + 1).last() == bs@[i as int]);
        }
        if b == 39 {
            out.push(39);
            out.push(39);
        } else {
            out.push(b);
        }
        proof {
            assert(out@ =~= before + sp_sql_escape_byte(b));
            assert(out@ =~= old(out)@ + sp_sql_escape(bs@.take(i as int + 1)));
        }
        i = i + 1;
    }
    proof {
        assert(bs@.take(bs@.len() as int) =~= bs@);
    }
}

/// Append the bytes of a string slice.
fn push_str_bytes(out: &mut Vec<u8>, s: &str)
    ensures
        final(out)@ == old(out)@ + encode_utf8(s@),
{
    let bs = s.as_bytes_vec();
    crate::sql_writer::push_all_bytes(out, &bs);
}

/// Append every byte of a vector.
fn push_all_bytes(out: &mut Vec<u8>, bytes: &Vec<u8>)
    ensures
        final(out)@ == old(out)@ + bytes@,
{
    let mut i: usize = 0;
    proof {
        assert(out@ =~= old(out)@ + bytes@.take(0));
    }
    while i < bytes.len()
        invariant
            i <= bytes@.len(),
            out@ == old(out)@ + bytes@.take(i as int),
        decreases bytes@.len() - i,
    {
        out.push(bytes[i]);
        proof {
            assert(old(out)@ + bytes@.take(i as int + 1) =~= (old(out)@ + bytes@.take(i as int)).push(
                bytes@[i as int],
            ));
        }
        i = i + 1;
    }
    proof {
        assert(bytes@.take(bytes@.len() as int) =~= bytes@);
    }
}

/// Append the SQL literal of one value, as `sp_sql_value` describes it.
/// A binary blob has no SQL rendering here.
pub fn write_value(out: &mut Vec<u8>, value: &Value) -> (r: Result<(), Error>)
    requires
        !(value@ is Binary),
    ensures
        r is Ok,
        final(out)@ == old(out)@ + sp_sql_value(value@),
{
    match value {
        Value::Int(i) => {
            let s = int_to_string(*i);
            push_str_bytes(out, s.as_str());
        },
        Value::Float(t) => {
            push_str_bytes(out, t.as_str());
        },
        Value::Bool(b) => {
            if *b {
                push_str_bytes(out, "TRUE");
            } else {
                push_str_bytes(out, "FALSE");
            }
        },
        Value::String(s) => {
            out.push(39);
            let bs = s.as_str().as_bytes_vec();
            push_sql_escaped(out, &bs);
            out.push(39);
            proof {
                assert(out@ =~= old(out)@ + sp_sql_value(value@));
            }
        },
        Value::Null => {
            push_str_bytes(out, "NULL");
        },
        _ => {
            let bs = to_json(value);
            out.push(39);
            push_sql_escaped(out, &bs);
            out.push(39);
            proof {
                assert(out@ =~= old(out)@ + sp_sql_value(value@));
            }
        },
    }
    Ok(())
}

/// The quoting of an identifier in a dialect: backquotes for MySQL,
/// double quotes for Postgres, brackets for SQLite.
pub open spec fn sp_sql_ident(syntax: Syntax, id: Seq<char>) -> Seq<u8> {
    match syntax {
        Syntax::Mysql => seq![96u8] + encode_utf8(id) + seq![96u8],
        Syntax::Postgres => seq![34u8] + encode_utf8(id) + seq![34u8],
        Syntax::Sqlite => seq![91u8] + encode_utf8(id) + seq![93u8],
    }
}

/// Append a quoted identifier, as `sp_sql_ident` describes it.
pub fn write_identifier(out: &mut Vec<u8>, syntax: &Syntax, id: &str) -> (r: Result<(), Error>)
    ensures
        r is Ok,
        final(out)@ == old(out)@ + sp_sql_ident(*syntax, id@),
{
    match syntax {
        Syntax::Mysql => {
            out.push(96);
            push_str_bytes(out, id);
            out.push(96);
        },
        Syntax::Postgres => {
            out.push(34);
            push_str_bytes(out, id);
            out.push(34);
        },
        Syntax::Sqlite => {
            out.push(91);
            push_str_bytes(out, id);
            out.push(93);
        },
    }
    proof {
        assert(out@ =~= old(out)@ + sp_sql_ident(*syntax, id@));
    }
    Ok(())
}

/// The column type name of a data type in a dialect; a `Null` column
/// types as the dialect's text type.
pub open spec fn sp_sql_type(syntax: Syntax, t: TypeView) -> Seq<char> {
    match syntax {
        Syntax::Postgres => match t {
            TypeView::Object(_) => "json"@,
            TypeView::Array(_) => "json"@,
            TypeView::Int => "bigint"@,
            TypeView::Float => "double precision"@,
            TypeView::Bool => "boolean"@,
            TypeView::String => "text"@,
            TypeView::Binary => "bytea"@,
            TypeView::Null => "text"@,
        },
        Syntax::Mysql => match t {
            TypeView::Object(_) => "JSON"@,
            TypeView::Array(_) => "JSON"@,
            TypeView::Int => "BIGINT"@,
            TypeView::Float => "DOUBLE"@,
            TypeView::Bool => "BOOLEAN"@,
            TypeView::String => "VARCHAR(1024)"@,
            TypeView::Binary => "BLOB"@,
            TypeView::Null => "VARCHAR(1024)"@,
        },
        Syntax::Sqlite => match t {
            TypeView::Object(_) => "TEXT"@,
            TypeView::Array(_) => "TEXT"@,
            TypeView::Int => "INT"@,
            TypeView::Float => "REAL"@,
            TypeView::Bool => "INT"@,
            TypeView::String => "TEXT"@,
            TypeView::Binary => "BLOB"@,
            TypeView::Null => "TEXT"@,
        },
    }
}

/// The column type name of a data type, as `sp_sql_type` describes it.
pub fn data_type(syntax: &Syntax, dt: &DataType) -> (r: &'static str)
    ensures
        r@ == sp_sql_type(*syntax, dt@),
{
    match syntax {
        Syntax::Postgres => match dt {
            DataType::Object(_) => "json",
            DataType::Array(_) => "json",
            DataType::Int => "bigint",
            DataType::Float => "double precision",
            DataType::Bool => "boolean",
            DataType::String => "text",
            DataType::Binary => "bytea",
            DataType::Null => "text",
        },
        Syntax::Mysql => match dt {
            DataType::Object(_) => "JSON",
            DataType::Array(_) => "JSON",
            DataType::Int => "BIGINT",
            DataType::Float => "DOUBLE",
            DataType::Bool => "BOOLEAN",
            DataType::String => "VARCHAR(1024)",
            DataType::Binary => "BLOB",
            DataType::Null => "VARCHAR(1024)",
        },
        Syntax::Sqlite => match dt {
            DataType::Object(_) => "TEXT",
            DataType::Array(_) => "TEXT",
            DataType::Int => "INT",
            DataType::Float => "REAL",
            DataType::Bool => "INT",
            DataType::String => "TEXT",
            DataType::Binary => "BLOB",
            DataType::Null => "TEXT",
        },
    }
}

/// One column declaration: two spaces, the quoted name, a space, the
/// column type, and ` NULL` when the field is nullable.
pub open spec fn sp_sql_column(syntax: Syntax, f: FieldView) -> Seq<u8> {
    encode_utf8("  "@) + sp_sql_ident(syntax, f.name) + seq![32u8] + encode_utf8(
        sp_sql_type(syntax, f.data_type),
    ) + if f.is_nullable {
        encode_utf8(" NULL"@)
    } else {
        Seq::<u8>::empty()
    }
}

/// The comma-and-newline-separated column declarations of a field list.
pub open spec fn sp_sql_columns(syntax: Syntax, fs: Seq<FieldView>) -> Seq<u8>
    decreases fs.len(),
{
    if fs.len() == 0 {
        Seq::empty()
    } else if fs.len() == 1 {
        sp_sql_column(syntax, fs[0])
    } else {
        sp_sql_column(syntax, fs[0]) + seq![44u8, 10u8] + sp_sql_columns(syntax, fs.drop_first())
    }
}

/// A whole `CREATE TABLE` statement for a field list.
pub open spec fn sp_create_table(syntax: Syntax, table_name: Seq<char>, fs: Seq<FieldView>) -> Seq<
    u8,
> {
    encode_utf8("CREATE TABLE "@) + sp_sql_ident(syntax, table_name) + encode_utf8(" (\n"@)
        + sp_sql_columns(syntax, fs) + encode_utf8("\n);\n\n"@)
}

/// Append a whole `CREATE TABLE` statement, as `sp_create_table`
/// describes it: one column per schema field, in schema order, nullable
/// columns marked `NULL`.
#[verifier::rlimit(60)]
pub fn write_create_table(
    out: &mut Vec<u8>,
    syntax: &Syntax,
    table_name: &str,
    fields: &Vec<Field>,
) -> (r: Result<(), Error>)
    ensures
        r is Ok,
        final(out)@ == old(out)@ + sp_create_table(*syntax, table_name@, fields_view(fields@)),
{
    let ghost fsv = fields_view(fields@);
    proof {
        lemma_fields_view(fields@);
    }
    push_str_bytes(out, "CREATE TABLE ");
    let _ = write_identifier(out, syntax, table_name);
    push_str_bytes(out, " (\n");
    let ghost header = out@;
    let mut i: usize = 0;
    while i < fields.len()
        invariant
            i <= fields@.len(),
            fsv == fields_view(fields@),
            fsv.len() == fields@.len(),
            forall|j: int| 0 <= j < fields@.len() ==> fsv[j] == #[trigger] fields@[j]@,
            i == 0 ==> out@ == header,
            0 < i < fields@.len() ==> out@ + seq![44u8, 10u8] + sp_sql_columns(
                *syntax,
                fsv.skip(i as int),
            ) == header + sp_sql_columns(*syntax, fsv),
            i == fields@.len() && fields@.len() > 0 ==> out@ == header + sp_sql_columns(
                *syntax,
                fsv,
            ),
        decreases fields@.len() - i,
    {
        let f = &fields[i];
        let ghost tail = fsv.skip(i as int);
        proof {
            assert(tail[0] == fsv[i as int]);
            assert(tail[0] == fields@[i as int]@);
            assert(tail.drop_first() =~= fsv.skip(i as int + 1));
            if i == 0 {
                assert(tail =~= fsv);
            }
        }
        if i > 0 {
            out.push(44);
            out.push(10);
        }
        let ghost mid = out@;
        push_str_bytes(out, "  ");
        let _ = write_identifier(out, syntax, f.name.as_str());
        out.push(32);
        let tname = data_type(syntax, &f.data_type);
        push_str_bytes(out, tname);
        if f.is_nullable {
            push_str_bytes(out, " NULL");
        }
        proof {
            assert(out@ =~= mid + sp_sql_column(*syntax, tail[0]));
            if i + 1 < fields@.len() {
                assert(sp_sql_columns(*syntax, tail) == sp_sql_column(*syntax, tail[0]) + seq![
                    44u8,
                    10u8,
                ] + sp_sql_columns(*syntax, tail.drop_first()));
                assert(out@ + seq![44u8, 10u8] + sp_sql_columns(*syntax, fsv.skip(i as int + 1))
                    =~= mid + sp_sql_columns(*syntax, tail));
            } else {
                assert(tail.len() == 1);
                assert(sp_sql_columns(*syntax, tail) == sp_sql_column(*syntax, tail[0]));
                assert(out@ =~= mid + sp_sql_columns(*syntax, tail));
            }
        }
        i = i + 1;
    }
    proof {
        if fields@.len() == 0 {
            assert(sp_sql_columns(*syntax, fsv) == Seq::<u8>::empty());
            assert(out@ =~= header + sp_sql_columns(*syntax, fsv));
        }
    }
    push_str_bytes(out, "\n);\n\n");
    proof {
        assert(out@ =~= old(out)@ + sp_create_table(*syntax, table_name@, fsv));
    }
    Ok(())
}

} // verus!
