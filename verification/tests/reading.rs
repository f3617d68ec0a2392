use kon::flatten::flatten;
use kon::json_reader::JsonMode;
use kon::json_reader::Options;
use kon::json_reader::RecordReader;
use kon::reader::infer_schema;
use kon::reader::ValueReader;
use kon::reader::into_rows;
use kon::reader::VecReader;
use kon::schema::dt_eq;
use kon::schema::DataType;
use kon::schema::Field;
use kon::schema::FieldMeta;
use kon::value::value_eq;
use kon::value::Value;

fn obj(entries: Vec<(&str, Value)>) -> Value {
    let mut out: Vec<(String, Value)> = Vec::new();
    for (k, v) in entries {
        out.push((k.to_string(), v));
    }
    Value::Object(out)
}

fn reader_over(text: &str) -> RecordReader {
    RecordReader::new(
        text.as_bytes().to_vec(),
        Options { mode: JsonMode::Auto, flatten_objects: false },
    )
    .unwrap()
}

fn collect(r: &mut RecordReader) -> Vec<Value> {
    let mut out = Vec::new();
    while let Some(v) = r.next().unwrap() {
        out.push(v);
    }
    out
}

#[test]
fn array_mode_yields_records_then_end_then_same_after_reset() {
    let mut r = reader_over("[{\"x\":1},{\"x\":2}]");
    let mut first = Vec::new();
    first.push(r.next().unwrap().unwrap());
    first.push(r.next().unwrap().unwrap());
    assert!(r.next().unwrap().is_none());
    assert!(r.next().unwrap().is_none());
    r.reset();
    let second = collect(&mut r);
    assert_eq!(second.len(), 2);
    for (a, b) in first.iter().zip(second.iter()) {
        assert!(value_eq(a, b));
    }
    assert!(value_eq(&first[0], &obj(vec![("x", Value::Int(1))])));
    assert!(value_eq(&first[1], &obj(vec![("x", Value::Int(2))])));
}

#[test]
fn delimited_mode_yields_same_records() {
    let mut r = reader_over("{\"x\":1}\n{\"x\":2}");
    let records = collect(&mut r);
    assert_eq!(records.len(), 2);
    assert!(value_eq(&records[0], &obj(vec![("x", Value::Int(1))])));
    assert!(value_eq(&records[1], &obj(vec![("x", Value::Int(2))])));
}

#[test]
fn empty_array_is_empty_stream() {
    let mut r = reader_over("[]");
    assert!(r.next().unwrap().is_none());
}

#[test]
fn array_mode_rejects_garbage_separator() {
    let mut r = reader_over("[{\"x\":1};{\"x\":2}]");
    assert!(r.next().unwrap().is_some());
    assert!(r.next().is_err());
}

#[test]
fn parser_handles_nesting_strings_and_numbers() {
    let mut r = reader_over(
        "{\"s\":\"a\\\"b\\n\\u00e9\",\"n\":-12,\"f\":2.5,\"e\":1e3,\"deep\":[[{\"k\":null}]],\"t\":true}",
    );
    let records = collect(&mut r);
    assert_eq!(records.len(), 1);
    let expected = obj(vec![
        ("s", Value::String("a\"b\n\u{e9}".to_string())),
        ("n", Value::Int(-12)),
        ("f", Value::Float("2.5".to_string())),
        ("e", Value::Float("1e3".to_string())),
        ("deep", Value::Array(vec![Value::Array(vec![obj(vec![("k", Value::Null)])])])),
        ("t", Value::Bool(true)),
    ]);
    assert!(value_eq(&records[0], &expected));
}

#[test]
fn duplicate_keys_keep_first_position_last_value() {
    let mut r = reader_over("{\"a\":1,\"b\":2,\"a\":3}");
    let records = collect(&mut r);
    let expected = obj(vec![("a", Value::Int(3)), ("b", Value::Int(2))]);
    assert!(value_eq(&records[0], &expected));
}

#[test]
fn big_integers_wrap_then_overflow_to_float() {
    let mut r = reader_over("{\"a\":18446744073709551615,\"b\":18446744073709551616}");
    let records = collect(&mut r);
    let expected = obj(vec![
        ("a", Value::Int(-1)),
        ("b", Value::Float("18446744073709551616".to_string())),
    ]);
    assert!(value_eq(&records[0], &expected));
}

#[test]
fn infer_schema_folds_all_records() {
    let mut r = reader_over("{\"a\":1}\n{\"a\":1.5}\n{\"a\":null,\"b\":\"x\"}");
    let dt = infer_schema(&mut r).unwrap();
    let expected = DataType::Object(vec![
        Field {
            name: "a".to_string(),
            data_type: DataType::Float,
            is_nullable: true,
            meta: FieldMeta::Absent,
        },
        Field {
            name: "b".to_string(),
            data_type: DataType::String,
            is_nullable: true,
            meta: FieldMeta::Absent,
        },
    ]);
    assert!(dt_eq(&dt, &expected));
}

#[test]
fn infer_schema_of_empty_stream_is_input_error() {
    let mut vr = VecReader::new(vec![]);
    assert!(infer_schema(&mut vr).is_err());
}

#[test]
fn rows_project_in_schema_order_with_nulls() {
    let r = reader_over("{\"a\":1}\n{\"a\":1.5}\n{\"a\":null,\"b\":\"x\"}");
    let mut rows = into_rows(r).unwrap();
    assert_eq!(rows.fields().len(), 2);
    assert_eq!(rows.fields()[0].name.as_str(), "a");
    assert_eq!(rows.fields()[1].name.as_str(), "b");
    let r1 = rows.next().unwrap().unwrap();
    assert!(value_eq(&r1[0], &Value::Float("1".to_string())));
    assert!(value_eq(&r1[1], &Value::Null));
    let r2 = rows.next().unwrap().unwrap();
    assert!(value_eq(&r2[0], &Value::Float("1.5".to_string())));
    assert!(value_eq(&r2[1], &Value::Null));
    let r3 = rows.next().unwrap().unwrap();
    assert!(value_eq(&r3[0], &Value::Null));
    assert!(value_eq(&r3[1], &Value::String("x".to_string())));
    assert!(rows.next().unwrap().is_none());
    rows.reset();
    let again = rows.next().unwrap().unwrap();
    assert!(value_eq(&again[0], &Value::Float("1".to_string())));
}

#[test]
fn rows_reject_non_object_record() {
    let vr = VecReader::new(vec![obj(vec![("a", Value::Int(1))]), Value::Int(2)]);
    let fields = vec![Field {
        name: "a".to_string(),
        data_type: DataType::Int,
        is_nullable: false,
        meta: FieldMeta::Absent,
    }];
    let mut rows = kon::reader::RowIterator::new(vr, fields);
    assert!(rows.next().is_ok());
    assert!(rows.next().is_err());
}

#[test]
fn flatten_nested_object() {
    let v = obj(vec![
        ("a", obj(vec![("b", Value::Int(1)), ("c", Value::Int(2))])),
        ("d", Value::Int(3)),
    ]);
    let flat = v.flatten_object();
    let expected = obj(vec![
        ("a.b", Value::Int(1)),
        ("a.c", Value::Int(2)),
        ("d", Value::Int(3)),
    ]);
    assert!(value_eq(&flat, &expected));
}

#[test]
fn flatten_flat_object_is_identity() {
    let entries: Vec<(String, Value)> = vec![
        ("a".to_string(), Value::Int(1)),
        ("b".to_string(), Value::Array(vec![obj(vec![("c", Value::Int(2))])])),
    ];
    let before = Value::Object(entries.clone_for_test());
    let after = Value::Object(flatten(entries));
    assert!(value_eq(&before, &after));
}

trait CloneForTest {
    fn clone_for_test(&self) -> Self;
}

impl CloneForTest for Vec<(String, Value)> {
    fn clone_for_test(&self) -> Self {
        let mut out = Vec::new();
        for (k, v) in self.iter() {
            out.push((k.clone(), v.deep_clone()));
        }
        out
    }
}

#[test]
fn flatten_reader_option_applies() {
    let mut r = RecordReader::new(
        "{\"a\":{\"b\":1}}".as_bytes().to_vec(),
        Options { mode: JsonMode::Auto, flatten_objects: true },
    )
    .unwrap();
    let records = collect(&mut r);
    assert!(value_eq(&records[0], &obj(vec![("a.b", Value::Int(1))])));
}

#[test]
fn whitespace_only_buffer_is_empty_stream() {
    let mut r = reader_over("  \n\t  ");
    assert!(r.next().unwrap().is_none());
}

#[test]
fn truncated_value_is_an_error() {
    let mut r = reader_over("{\"a\":");
    assert!(r.next().is_err());
    let mut r2 = reader_over("[");
    assert!(r2.next().is_err());
    let mut r3 = reader_over("{\"a\":1},");
    assert!(r3.next().unwrap().is_some());
}

#[test]
fn reset_replays_the_same_logical_values() {
    let mut r = reader_over("{\"a\":[1,{\"b\":null}]}\n{\"c\":\"x\"}");
    let first = collect(&mut r);
    r.reset();
    let second = collect(&mut r);
    assert_eq!(first.len(), second.len());
    for (a, b) in first.iter().zip(second.iter()) {
        assert!(value_eq(a, b));
    }
}

#[test]
fn exhausted_reader_keeps_yielding_end_of_stream() {
    let mut r = reader_over("{\"x\":1}");
    assert!(r.next().unwrap().is_some());
    assert!(r.next().unwrap().is_none());
    assert!(r.next().unwrap().is_none());
    r.reset();
    assert!(r.next().unwrap().is_some());
    assert!(r.next().unwrap().is_none());
}

#[test]
fn flatten_collision_keeps_later_leaf() {
    let v = obj(vec![
        ("a", obj(vec![("b", Value::Int(1))])),
        ("a.b", Value::Int(2)),
    ]);
    let flat = v.flatten_object();
    assert!(value_eq(&flat, &obj(vec![("a.b", Value::Int(2))])));
}
