use kon::coerce::coerce_value;
use kon::infer::infer_value;
use kon::reader::is_coercible;
use kon::schema::dt_eq;
use kon::schema::DataType;
use kon::schema::Field;
use kon::schema::FieldMeta;
use kon::textnum::int_to_string;
use kon::textnum::parse_integer;
use kon::unify::coerce_data_type;
use kon::unify::coerce_data_types;
use kon::value::value_eq;
use kon::value::Value;

fn obj(entries: Vec<(&str, Value)>) -> Value {
    let mut out: Vec<(String, Value)> = Vec::new();
    for (k, v) in entries {
        out.push((k.to_string(), v));
    }
    Value::Object(out)
}

fn field(name: &str, dt: DataType, nullable: bool) -> Field {
    Field { name: name.to_string(), data_type: dt, is_nullable: nullable, meta: FieldMeta::Absent }
}

#[test]
fn accessors_match_variants() {
    assert!(Value::Object(vec![]).is_object());
    assert!(!Value::Null.is_object());
    assert!(Value::Array(vec![]).is_array());
    assert_eq!(Value::Int(7).as_int(), Some(7));
    assert_eq!(Value::Bool(true).as_bool(), Some(&true));
    assert_eq!(
        Value::String("x".to_string()).as_string(),
        Some(&"x".to_string())
    );
    assert_eq!(Value::Float("1.5".to_string()).as_float(), Some(&"1.5".to_string()));
    assert!(Value::Null.as_int().is_none());
    assert!(Value::Null.unwrap_object().is_err());
    assert!(obj(vec![]).unwrap_object().is_ok());
}

#[test]
fn infer_scalars() {
    assert!(dt_eq(&infer_value(&Value::Null), &DataType::Null));
    assert!(dt_eq(&infer_value(&Value::Bool(true)), &DataType::Bool));
    assert!(dt_eq(&infer_value(&Value::Int(1)), &DataType::Int));
    assert!(dt_eq(&infer_value(&Value::Float("1.5".to_string())), &DataType::Float));
    assert!(dt_eq(&infer_value(&Value::String("s".to_string())), &DataType::String));
    assert!(dt_eq(&infer_value(&Value::Binary(vec![1])), &DataType::Binary));
}

#[test]
fn infer_object_speculative_nullability() {
    let v = obj(vec![("a", Value::Int(1)), ("b", Value::Null)]);
    let dt = infer_value(&v);
    let expected = DataType::Object(vec![
        field("a", DataType::Int, false),
        field("b", DataType::Null, true),
    ]);
    assert!(dt_eq(&dt, &expected));
}

#[test]
fn infer_array_dedups_and_unifies() {
    let v = Value::Array(vec![Value::Int(1), Value::Int(2), Value::Float("1.5".to_string())]);
    let dt = infer_value(&v);
    assert!(dt_eq(&dt, &DataType::Array(Box::new(DataType::Float))));
}

#[test]
fn unify_widening_rules() {
    assert!(dt_eq(&coerce_data_type(&DataType::Float, &DataType::Int), &DataType::Float));
    assert!(dt_eq(&coerce_data_type(&DataType::Int, &DataType::Float), &DataType::Float));
    assert!(dt_eq(&coerce_data_type(&DataType::Int, &DataType::Bool), &DataType::Int));
    assert!(dt_eq(&coerce_data_type(&DataType::Bool, &DataType::Int), &DataType::Int));
    assert!(dt_eq(&coerce_data_type(&DataType::String, &DataType::Int), &DataType::String));
    assert!(dt_eq(
        &coerce_data_type(&DataType::Object(vec![]), &DataType::Int),
        &DataType::String
    ));
    assert!(dt_eq(&coerce_data_type(&DataType::Null, &DataType::Int), &DataType::Int));
    assert!(dt_eq(&coerce_data_type(&DataType::Int, &DataType::Null), &DataType::Int));
}

#[test]
fn unify_object_merge_order_and_nullability() {
    let a = DataType::Object(vec![field("a", DataType::Int, false)]);
    let b = DataType::Object(vec![
        field("a", DataType::Float, false),
        field("b", DataType::String, false),
    ]);
    let merged = coerce_data_type(&a, &b);
    let expected = DataType::Object(vec![
        field("a", DataType::Float, false),
        field("b", DataType::String, true),
    ]);
    assert!(dt_eq(&merged, &expected));
}

#[test]
fn unify_nullable_stays_nullable() {
    let a = DataType::Object(vec![field("a", DataType::Int, true)]);
    let b = DataType::Object(vec![field("a", DataType::Int, false)]);
    let merged = coerce_data_type(&a, &b);
    let expected = DataType::Object(vec![field("a", DataType::Int, true)]);
    assert!(dt_eq(&merged, &expected));
    let merged_flipped = coerce_data_type(&b, &a);
    assert!(dt_eq(&merged_flipped, &expected));
}

#[test]
fn unify_fold_empty_is_null() {
    let none: Vec<DataType> = vec![];
    assert!(dt_eq(&coerce_data_types(&none), &DataType::Null));
    let one = vec![DataType::Int];
    assert!(dt_eq(&coerce_data_types(&one), &DataType::Int));
    let chain = vec![DataType::Bool, DataType::Int, DataType::Float];
    assert!(dt_eq(&coerce_data_types(&chain), &DataType::Float));
}

#[test]
fn coerce_widening() {
    let v = coerce_value(&Value::Bool(true), &DataType::Int, true).unwrap();
    assert!(value_eq(&v, &Value::Int(1)));
    let v = coerce_value(&Value::Bool(false), &DataType::Int, true).unwrap();
    assert!(value_eq(&v, &Value::Int(0)));
    let v = coerce_value(&Value::Int(5), &DataType::Float, true).unwrap();
    assert!(value_eq(&v, &Value::Float("5".to_string())));
    let v = coerce_value(&Value::Int(-7), &DataType::String, true).unwrap();
    assert!(value_eq(&v, &Value::String("-7".to_string())));
    let v = coerce_value(&Value::String("42".to_string()), &DataType::Int, true).unwrap();
    assert!(value_eq(&v, &Value::Int(42)));
    assert!(coerce_value(&Value::String("4x".to_string()), &DataType::Int, true).is_err());
    let v = coerce_value(&Value::Null, &DataType::Int, true).unwrap();
    assert!(value_eq(&v, &Value::Null));
}

#[test]
fn coerce_fallback_renders_json_text() {
    let v = coerce_value(&Value::Bool(true), &DataType::String, true).unwrap();
    assert!(value_eq(&v, &Value::String("true".to_string())));
    let arr = Value::Array(vec![Value::Int(1), Value::Int(2)]);
    let v = coerce_value(&arr, &DataType::String, true).unwrap();
    assert!(value_eq(&v, &Value::String("[1,2]".to_string())));
    let nested = obj(vec![("a", Value::Int(1))]);
    let v = coerce_value(&nested, &DataType::String, true).unwrap();
    assert!(value_eq(&v, &Value::String("{\"a\":1}".to_string())));
}

#[test]
fn coerce_object_reorders_and_fills_nulls() {
    let v = obj(vec![("b", Value::Bool(true))]);
    let target = DataType::Object(vec![
        field("b", DataType::Int, false),
        field("c", DataType::String, true),
    ]);
    let coerced = coerce_value(&v, &target, true).unwrap();
    let expected = obj(vec![("b", Value::Int(1)), ("c", Value::Null)]);
    assert!(value_eq(&coerced, &expected));
}

#[test]
fn coerce_on_own_inferred_type_is_identity() {
    let v = obj(vec![
        ("a", Value::Int(1)),
        ("b", Value::Array(vec![Value::Int(1), Value::Int(2)])),
        ("c", obj(vec![("d", Value::String("x".to_string()))])),
    ]);
    let dt = infer_value(&v);
    let coerced = coerce_value(&v, &dt, true).unwrap();
    assert!(value_eq(&coerced, &v));
}

#[test]
fn parse_integer_strict() {
    assert_eq!(parse_integer("0").unwrap(), 0);
    assert_eq!(parse_integer("42").unwrap(), 42);
    assert_eq!(parse_integer("-42").unwrap(), -42);
    assert_eq!(parse_integer("+42").unwrap(), 42);
    assert_eq!(parse_integer("9223372036854775807").unwrap(), i64::MAX);
    assert_eq!(parse_integer("-9223372036854775808").unwrap(), i64::MIN);
    assert!(parse_integer("9223372036854775808").is_err());
    assert!(parse_integer("").is_err());
    assert!(parse_integer("-").is_err());
    assert!(parse_integer("1.5").is_err());
    assert!(parse_integer("abc").is_err());
}

#[test]
fn int_to_string_exact() {
    assert_eq!(int_to_string(0).as_str(), "0");
    assert_eq!(int_to_string(123).as_str(), "123");
    assert_eq!(int_to_string(-123).as_str(), "-123");
    assert_eq!(int_to_string(i64::MIN).as_str(), "-9223372036854775808");
    assert_eq!(int_to_string(i64::MAX).as_str(), "9223372036854775807");
}

#[test]
fn deep_clone_and_equality() {
    let v = obj(vec![
        ("a", Value::Array(vec![Value::Null, Value::Bool(false)])),
        ("b", Value::Binary(vec![1, 2, 3])),
    ]);
    let w = v.deep_clone();
    assert!(value_eq(&v, &w));
    let other = obj(vec![("a", Value::Int(1))]);
    assert!(!value_eq(&v, &other));
}

#[test]
fn unify_commutes_up_to_field_order() {
    let a = DataType::Object(vec![
        field("x", DataType::Int, false),
        field("y", DataType::Null, true),
    ]);
    let b = DataType::Object(vec![
        field("y", DataType::String, false),
        field("z", DataType::Bool, false),
    ]);
    let ab = coerce_data_type(&a, &b);
    let ba = coerce_data_type(&b, &a);
    let expected_ab = DataType::Object(vec![
        field("x", DataType::Int, true),
        field("y", DataType::String, true),
        field("z", DataType::Bool, true),
    ]);
    let expected_ba = DataType::Object(vec![
        field("y", DataType::String, true),
        field("z", DataType::Bool, true),
        field("x", DataType::Int, true),
    ]);
    assert!(dt_eq(&ab, &expected_ab));
    assert!(dt_eq(&ba, &expected_ba));
}

#[test]
fn coercibility_matches_the_defined_pairings() {
    assert!(is_coercible(&Value::Bool(true), &DataType::Int, true));
    assert!(is_coercible(&Value::Null, &DataType::Binary, true));
    assert!(is_coercible(&Value::String("x".to_string()), &DataType::Int, true));
    assert!(is_coercible(&Value::Int(1), &DataType::String, true));
    assert!(!is_coercible(&Value::Float("1.5".to_string()), &DataType::Int, true));
    assert!(!is_coercible(&Value::Bool(true), &DataType::Float, true));
    assert!(!is_coercible(&Value::Int(1), &DataType::Bool, true));
    let arr = Value::Array(vec![Value::Bool(true), Value::Float("1.5".to_string())]);
    assert!(!is_coercible(&arr, &DataType::Array(Box::new(DataType::Float)), true));
}

#[test]
fn unify_is_total_over_sample_pairs() {
    let samples = vec![
        DataType::Null,
        DataType::Bool,
        DataType::String,
        DataType::Binary,
        DataType::Int,
        DataType::Float,
        DataType::Array(Box::new(DataType::Int)),
        DataType::Array(Box::new(DataType::Object(vec![field("a", DataType::Null, true)]))),
        DataType::Object(vec![field("a", DataType::Int, false)]),
        DataType::Object(vec![field("b", DataType::Float, true), field("a", DataType::Bool, false)]),
    ];
    for a in samples.iter() {
        for b in samples.iter() {
            let u = coerce_data_type(a, b);
            let uu = coerce_data_type(&u, &u);
            assert!(dt_eq(&uu, &u));
        }
    }
}

#[test]
fn infer_array_dedup_shapes_the_fold() {
    let v = Value::Array(vec![
        Value::Int(1),
        Value::Bool(true),
        Value::Float("1.5".to_string()),
        Value::Bool(false),
    ]);
    let dt = infer_value(&v);
    assert!(dt_eq(&dt, &DataType::Array(Box::new(DataType::Float))));
    let raw = vec![DataType::Int, DataType::Bool, DataType::Float, DataType::Bool];
    assert!(dt_eq(&coerce_data_types(&raw), &DataType::String));
}
