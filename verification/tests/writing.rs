use kon::csv_reader::parse_bytes;
use kon::json_writer::write_array_compact;
use kon::json_writer::write_array_pretty;
use kon::json_writer::write_ndjson;
use kon::reader::VecReader;
use kon::schema::DataType;
use kon::schema::Field;
use kon::schema::FieldMeta;
use kon::sql_writer::data_type;
use kon::sql_writer::write_create_table;
use kon::sql_writer::write_identifier;
use kon::sql_writer::write_value;
use kon::sql_writer::Syntax;
use kon::value::value_eq;
use kon::value::Value;

fn obj(entries: Vec<(&str, Value)>) -> Value {
    let mut out: Vec<(String, Value)> = Vec::new();
    for (k, v) in entries {
        out.push((k.to_string(), v));
    }
    Value::Object(out)
}

#[test]
fn sql_values_render_exactly() {
    let mut out = Vec::new();
    write_value(&mut out, &Value::Int(-3)).unwrap();
    out.push(b' ');
    write_value(&mut out, &Value::String("it's".to_string())).unwrap();
    out.push(b' ');
    write_value(&mut out, &Value::Bool(true)).unwrap();
    out.push(b' ');
    write_value(&mut out, &Value::Null).unwrap();
    out.push(b' ');
    write_value(&mut out, &obj(vec![("a", Value::String("x'y".to_string()))])).unwrap();
    assert_eq!(
        String::from_utf8(out).unwrap(),
        "-3 'it''s' TRUE NULL '{\"a\":\"x''y\"}'"
    );
}

#[test]
fn sql_identifiers_per_dialect() {
    let mut out = Vec::new();
    write_identifier(&mut out, &Syntax::Postgres, "t").unwrap();
    write_identifier(&mut out, &Syntax::Mysql, "t").unwrap();
    write_identifier(&mut out, &Syntax::Sqlite, "t").unwrap();
    assert_eq!(String::from_utf8(out).unwrap(), "\"t\"`t`[t]");
}

#[test]
fn sql_type_names() {
    assert_eq!(data_type(&Syntax::Postgres, &DataType::Int), "bigint");
    assert_eq!(data_type(&Syntax::Mysql, &DataType::Float), "DOUBLE");
    assert_eq!(data_type(&Syntax::Sqlite, &DataType::String), "TEXT");
    assert_eq!(data_type(&Syntax::Postgres, &DataType::Null), "text");
}

#[test]
fn create_table_statement_is_exact() {
    let fields = vec![
        Field {
            name: "a".to_string(),
            data_type: DataType::Int,
            is_nullable: false,
            meta: FieldMeta::Absent,
        },
        Field {
            name: "b".to_string(),
            data_type: DataType::String,
            is_nullable: true,
            meta: FieldMeta::Absent,
        },
    ];
    let mut out = Vec::new();
    write_create_table(&mut out, &Syntax::Postgres, "t", &fields).unwrap();
    assert_eq!(
        String::from_utf8(out).unwrap(),
        "CREATE TABLE \"t\" (\n  \"a\" bigint,\n  \"b\" text NULL\n);\n\n"
    );
}

#[test]
fn ndjson_renders_each_record_on_a_line() {
    let mut vr = VecReader::new(vec![
        obj(vec![("a", Value::Int(1))]),
        obj(vec![("a", Value::Int(2))]),
    ]);
    let mut out = Vec::new();
    write_ndjson(&mut out, &mut vr).unwrap();
    assert_eq!(String::from_utf8(out).unwrap(), "{\"a\":1}\n{\"a\":2}\n");
}

#[test]
fn compact_array_renders_brackets_and_commas() {
    let mut vr = VecReader::new(vec![
        obj(vec![("a", Value::Int(1))]),
        obj(vec![("a", Value::Int(2))]),
    ]);
    let mut out = Vec::new();
    write_array_compact(&mut out, &mut vr).unwrap();
    assert_eq!(String::from_utf8(out).unwrap(), "[{\"a\":1},{\"a\":2}]");
    let mut empty = VecReader::new(vec![]);
    let mut out2 = Vec::new();
    write_array_compact(&mut out2, &mut empty).unwrap();
    assert_eq!(String::from_utf8(out2).unwrap(), "[]");
}

#[test]
fn pretty_array_renders_indented_records() {
    let mut vr = VecReader::new(vec![
        obj(vec![("a", Value::Int(1)), ("b", Value::Array(vec![Value::Int(2), Value::Int(3)]))]),
        obj(vec![("c", Value::Null)]),
    ]);
    let mut out = Vec::new();
    write_array_pretty(&mut out, &mut vr).unwrap();
    let expected = "[\n{\n  \"a\": 1,\n  \"b\": [\n    2,\n    3\n  ]\n},\n{\n  \"c\": null\n}\n]\n";
    assert_eq!(String::from_utf8(out).unwrap(), expected);
    let mut empty = VecReader::new(vec![]);
    let mut out2 = Vec::new();
    write_array_pretty(&mut out2, &mut empty).unwrap();
    assert_eq!(String::from_utf8(out2).unwrap(), "[\n\n]\n");
}

#[test]
fn json_text_escapes_strings() {
    let v = obj(vec![("k\"x", Value::String("a\\b\nc\u{1}".to_string()))]);
    let bytes = kon::jsontext::to_json(&v);
    assert_eq!(
        String::from_utf8(bytes).unwrap(),
        "{\"k\\\"x\":\"a\\\\b\\nc\\u0001\"}"
    );
}

#[test]
fn json_text_of_every_variant() {
    let v = Value::Array(vec![
        Value::Null,
        Value::Bool(false),
        Value::Int(-5),
        Value::Float("2.75".to_string()),
        Value::Binary(vec![7, 8]),
    ]);
    let bytes = kon::jsontext::to_json(&v);
    assert_eq!(String::from_utf8(bytes).unwrap(), "[null,false,-5,2.75,[7,8]]");
}

#[test]
fn csv_cell_parse() {
    assert!(value_eq(&parse_bytes("42"), &Value::Int(42)));
    assert!(value_eq(&parse_bytes("x42"), &Value::String("x42".to_string())));
    assert!(value_eq(&parse_bytes(""), &Value::String("".to_string())));
}

#[test]
fn csv_field_rendering() {
    let mut buf = Vec::new();
    kon::csv_writer::write_value(&Value::Int(3), &mut buf).unwrap();
    buf.push(b',');
    kon::csv_writer::write_value(&Value::Null, &mut buf).unwrap();
    buf.push(b',');
    kon::csv_writer::write_value(&Value::Array(vec![Value::Int(1)]), &mut buf).unwrap();
    assert_eq!(String::from_utf8(buf).unwrap(), "3,,[1]");
}

#[test]
fn schema_interchange_round_trip() {
    let schema = DataType::Object(vec![
        Field {
            name: "a".to_string(),
            data_type: DataType::Array(Box::new(DataType::Float)),
            is_nullable: true,
            meta: FieldMeta::Absent,
        },
        Field {
            name: "b.c".to_string(),
            data_type: DataType::Int,
            is_nullable: false,
            meta: FieldMeta::Json(vec!["b".to_string(), "c".to_string()]),
        },
    ]);
    let mut out = Vec::new();
    kon::schema_text::write_schema(&mut out, &schema);
    let mut expected = String::new();
    expected.push_str("{\"name\":\"Object\",\"children\":[");
    expected.push_str("{\"name\":\"a\",\"data_type\":{\"name\":\"Array\",\"children\":{\"name\":\"Float\"}},");
    expected.push_str("\"is_nullable\":true,\"meta\":\"None\"},");
    expected.push_str("{\"name\":\"b.c\",\"data_type\":{\"name\":\"Int\"},");
    expected.push_str("\"is_nullable\":false,\"meta\":{\"Json\":[\"b\",\"c\"]}}");
    expected.push_str("]}");
    assert_eq!(String::from_utf8(out.clone()).unwrap(), expected);
    let (value, _) = kon::json_reader::parse_value(&out, 0).unwrap();
    let back = kon::schema_text::schema_from_value(&value).unwrap();
    assert!(kon::schema::dt_eq(&back, &schema));
}

#[test]
fn schema_from_value_rejects_bad_shapes() {
    let (v, _) = kon::json_reader::parse_value(&b"{\"name\":\"Rocket\"}".to_vec(), 0).unwrap();
    assert!(kon::schema_text::schema_from_value(&v).is_err());
    let (v, _) = kon::json_reader::parse_value(&b"[1]".to_vec(), 0).unwrap();
    assert!(kon::schema_text::schema_from_value(&v).is_err());
}
