use crate::error::Error;
use crate::jsontext::push_json_string;
use crate::jsontext::sp_json_string;
use crate::schema::fields_view;
use crate::schema::lemma_fields_view;
use crate::schema::DataType;
use crate::schema::Field;
use crate::schema::FieldMeta;
use crate::schema::FieldView;
use crate::schema::MetaView;
use crate::schema::TypeView;
use crate::value::Value;
use crate::value::ValueView;
use vstd::prelude::*;
use vstd::string::StrSliceExecFns;
use vstd::utf8::encode_utf8;

verus! {

/// The tagged JSON text of a data type, as it is persisted between a
/// discovery pass and a separate projection pass: a `name` tag for the
/// variant and a `children` payload for an array's element type or an
/// object's field list.
pub open spec fn sp_schema_json(t: TypeView) -> Seq<u8>
    decreases t, 2int,
{
    match t {
        TypeView::Null => encode_utf8("{\"name\":\"Null\"}"@),
        TypeView::Bool => encode_utf8("{\"name\":\"Bool\"}"@),
        TypeView::String => encode_utf8("{\"name\":\"String\"}"@),
        TypeView::Binary => encode_utf8("{\"name\":\"Binary\"}"@),
        TypeView::Int => encode_utf8("{\"name\":\"Int\"}"@),
        TypeView::Float => encode_utf8("{\"name\":\"Float\"}"@),
        TypeView::Array(et) => encode_utf8("{\"name\":\"Array\",\"children\":"@) + sp_schema_json(
            *et,
        ) + seq![125u8],
        TypeView::Object(fs) => encode_utf8("{\"name\":\"Object\",\"children\":["@)
            + sp_schema_fields_json(fs) + seq![93u8, 125u8],
    }
}

/// The comma-separated JSON texts of a field list.
pub open spec fn sp_schema_fields_json(fs: Seq<FieldView>) -> Seq<u8>
    decreases fs, 0int,
{
    if fs.len() == 0 {
        Seq::empty()
    } else if fs.len() == 1 {
        sp_schema_field_json(fs[0])
    } else {
        sp_schema_field_json(fs[0]) + seq![44u8] + sp_schema_fields_json(fs.drop_first())
    }
}

/// The JSON text of one field: its name, type, nullability and
/// provenance.
pub open spec fn sp_schema_field_json(f: FieldView) -> Seq<u8>
    decreases f, 1int,
{
    encode_utf8("{\"name\":"@) + sp_json_string(f.name) + encode_utf8(",\"data_type\":"@)
        + sp_schema_json(f.data_type) + encode_utf8(",\"is_nullable\":"@) + (if f.is_nullable {
        encode_utf8("true"@)
    } else {
        encode_utf8("false"@)
    }) + encode_utf8(",\"meta\":"@) + sp_schema_meta_json(f.meta) + seq![125u8]
}

/// The JSON text of a field's provenance.
pub open spec fn sp_schema_meta_json(m: MetaView) -> Seq<u8> {
    match m {
        MetaView::Absent => encode_utf8("\"None\""@),
        MetaView::Json(path) => encode_utf8("{\"Json\":["@) + sp_schema_path_json(path) + seq![
            93u8,
            125u8,
        ],
    }
}

/// The comma-separated quoted keys of a provenance path.
pub open spec fn sp_schema_path_json(path: Seq<Seq<char>>) -> Seq<u8>
    decreases path.len(),
{
    if path.len() == 0 {
        Seq::empty()
    } else if path.len() == 1 {
        sp_json_string(path[0])
    } else {
        sp_json_string(path[0]) + seq![44u8] + sp_schema_path_json(path.drop_first())
    }
}

/// Append the bytes of a string slice.
fn push_text(out: &mut Vec<u8>, s: &str)
    ensures
        final(out)@ == old(out)@ + encode_utf8(s@),
{
    let bs = s.as_bytes_vec();
    crate::jsontext::push_all(out, &bs);
}

/// Append the tagged JSON text of a data type, as `sp_schema_json`
/// describes it.
pub fn write_schema(out: &mut Vec<u8>, t: &DataType)
    ensures
        final(out)@ == old(out)@ + sp_schema_json(t@),
    decreases *t, 2int, 0int,
{
    match t {
        DataType::Null => {
            push_text(out, "{\"name\":\"Null\"}");
        },
        DataType::Bool => {
            push_text(out, "{\"name\":\"Bool\"}");
        },
        DataType::String => {
            push_text(out, "{\"name\":\"String\"}");
        },
        DataType::Binary => {
            push_text(out, "{\"name\":\"Binary\"}");
        },
        DataType::Int => {
            push_text(out, "{\"name\":\"Int\"}");
        },
        DataType::Float => {
            push_text(out, "{\"name\":\"Float\"}");
        },
        DataType::Array(et) => {
            push_text(out, "{\"name\":\"Array\",\"children\":");
            write_schema(out, et);
            out.push(125);
            proof {
                assert(out@ =~= old(out)@ + sp_schema_json(t@));
            }
        },
        DataType::Object(fs) => {
            push_text(out, "{\"name\":\"Object\",\"children\":[");
            write_schema_fields(fs, 0, out);
            out.push(93);
            out.push(125);
            proof {
                lemma_fields_view(fs@);
                assert(fields_view(fs@).skip(0) =~= fields_view(fs@));
                assert(out@ =~= old(out)@ + sp_schema_json(t@));
            }
        },
    }
}

/// Append the comma-separated JSON texts of the fields from `i` on.
fn write_schema_fields(fs: &Vec<Field>, i: usize, out: &mut Vec<u8>)
    requires
        i <= fs@.len(),
    ensures
        final(out)@ == old(out)@ + sp_schema_fields_json(fields_view(fs@).skip(i as int)),
    decreases *fs, 0int, fs@.len() - i,
{
    proof {
        lemma_fields_view(fs@);
    }
    let ghost tail = fields_view(fs@).skip(i as int);
    if i < fs.len() {
        let f = &fs[i];
        proof {
            assert(tail[0] == fields_view(fs@)[i as int]);
            assert(tail[0] == fs@[i as int]@);
            assert(tail.drop_first() =~= fields_view(fs@).skip(i as int + 1));
        }
        write_schema_field(f, out);
        if i + 1 < fs.len() {
            out.push(44);
            write_schema_fields(fs, i + 1, out);
            proof {
                assert(out@ =~= old(out)@ + sp_schema_fields_json(tail));
            }
        } else {
            proof {
                assert(tail.len() == 1);
                assert(out@ =~= old(out)@ + sp_schema_fields_json(tail));
            }
        }
    } else {
        proof {
            assert(tail.len() == 0);
            assert(out@ =~= old(out)@ + sp_schema_fields_json(tail));
        }
    }
}

/// Append the JSON text of one field.
#[verifier::rlimit(60)]
fn write_schema_field(f: &Field, out: &mut Vec<u8>)
    ensures
        final(out)@ == old(out)@ + sp_schema_field_json(f@),
    decreases *f, 1int, 0int,
{
    push_text(out, "{\"name\":");
    push_json_string(out, f.name.as_str());
    push_text(out, ",\"data_type\":");
    write_schema(out, &f.data_type);
    push_text(out, ",\"is_nullable\":");
    if f.is_nullable {
        push_text(out, "true");
    } else {
        push_text(out, "false");
    }
    push_text(out, ",\"meta\":");
    match &f.meta {
        FieldMeta::Absent => {
            push_text(out, "\"None\"");
        },
        FieldMeta::Json(path) => {
            push_text(out, "{\"Json\":[");
            write_schema_path(path, 0, out);
            out.push(93);
            out.push(125);
            proof {
                assert(Seq::new(path@.len(), |j: int| path@[j]@).skip(0) =~= Seq::new(
                    path@.len(),
                    |j: int| path@[j]@,
                ));
            }
        },
    }
    out.push(125);
    proof {
        assert(out@ =~= old(out)@ + sp_schema_field_json(f@));
    }
}


/// Append the comma-separated quoted keys of a provenance path from `i`
/// on.
fn write_schema_path(path: &Vec<String>, i: usize, out: &mut Vec<u8>)
    requires
        i <= path@.len(),
    ensures
        final(out)@ == old(out)@ + sp_schema_path_json(
            Seq::new(path@.len(), |j: int| path@[j]@).skip(i as int),
        ),
    decreases path@.len() - i,
{
    let ghost pv = Seq::new(path@.len(), |j: int| path@[j]@);
    let ghost tail = pv.skip(i as int);
    if i < path.len() {
        proof {
            assert(tail[0] == pv[i as int]);
            assert(tail[0] == path@[i as int]@);
            assert(tail.drop_first() =~= pv.skip(i as int + 1));
        }
        let item = &path[i];
        push_json_string(out, item.as_str());
        if i + 1 < path.len() {
            out.push(44);
            write_schema_path(path, i + 1, out);
            proof {
                assert(out@ =~= old(out)@ + sp_schema_path_json(tail));
            }
        } else {
            proof {
                assert(tail.len() == 1);
                assert(out@ =~= old(out)@ + sp_schema_path_json(tail));
            }
        }
    } else {
        proof {
            assert(tail.len() == 0);
            assert(out@ =~= old(out)@ + sp_schema_path_json(tail));
        }
    }
}


/// The data type a tagged value stands for, read back from the
/// interchange structure: a `name` tag for the variant, a `children`
/// payload for an array's element type or an object's field list, and
/// nothing for any value of another shape.
pub open spec fn sp_schema_of_value(v: ValueView) -> Option<TypeView>
    decreases v,
{
    match v {
        ValueView::Object(es) => {
            let ti = crate::value::key_index(es, "name"@);
            if !(0 <= ti < es.len()) {
                Option::None
            } else {
                match es[ti].1 {
                    ValueView::String(tag) => {
                        if tag == "Null"@ {
                            Some(TypeView::Null)
                        } else if tag == "Bool"@ {
                            Some(TypeView::Bool)
                        } else if tag == "String"@ {
                            Some(TypeView::String)
                        } else if tag == "Binary"@ {
                            Some(TypeView::Binary)
                        } else if tag == "Int"@ {
                            Some(TypeView::Int)
                        } else if tag == "Float"@ {
                            Some(TypeView::Float)
                        } else if tag == "Array"@ {
                            let ci = crate::value::key_index(es, "children"@);
                            if !(0 <= ci < es.len()) {
                                Option::None
                            } else {
                                match sp_schema_of_entry(es[ci]) {
                                    Some(t) => Some(TypeView::Array(Box::new(t))),
                                    None => Option::None,
                                }
                            }
                        } else if tag == "Object"@ {
                            let ci = crate::value::key_index(es, "children"@);
                            if !(0 <= ci < es.len()) {
                                Option::None
                            } else {
                                match sp_fields_of_entry(es[ci]) {
                                    Some(fs) => Some(TypeView::Object(fs)),
                                    None => Option::None,
                                }
                            }
                        } else {
                            Option::None
                        }
                    },
                    _ => Option::None,
                }
            }
        },
        _ => Option::None,
    }
}

/// The data type one carried entry's value stands for.
pub open spec fn sp_schema_of_entry(e: (Seq<char>, ValueView)) -> Option<TypeView>
    decreases e,
{
    sp_schema_of_value(e.1)
}

/// The field list one carried entry's value stands for: it must be an
/// array of field structures.
pub open spec fn sp_fields_of_entry(e: (Seq<char>, ValueView)) -> Option<Seq<FieldView>>
    decreases e,
{
    match e.1 {
        ValueView::Array(vs) => sp_fields_of_values(vs),
        _ => Option::None,
    }
}

/// The field list a value sequence stands for, field by field.
pub open spec fn sp_fields_of_values(vs: Seq<ValueView>) -> Option<Seq<FieldView>>
    decreases vs,
{
    if vs.len() == 0 {
        Some(Seq::empty())
    } else {
        match sp_field_of_value(vs[0]) {
            None => Option::None,
            Some(f) => match sp_fields_of_values(vs.drop_first()) {
                None => Option::None,
                Some(fs) => Some(seq![f] + fs),
            },
        }
    }
}

/// The field one value stands for: a structure carrying a string name,
/// a data type, a boolean nullability, and a provenance.
pub open spec fn sp_field_of_value(v: ValueView) -> Option<FieldView>
    decreases v,
{
    match v {
        ValueView::Object(es) => {
            let ni = crate::value::key_index(es, "name"@);
            let di = crate::value::key_index(es, "data_type"@);
            let li = crate::value::key_index(es, "is_nullable"@);
            let mi = crate::value::key_index(es, "meta"@);
            if !(0 <= ni < es.len()) || !(0 <= di < es.len()) || !(0 <= li < es.len()) || !(0 <= mi
                < es.len()) {
                Option::None
            } else {
                match (es[ni].1, es[li].1, es[mi].1) {
                    (ValueView::String(name), ValueView::Bool(nullable), mv) => {
                        match (sp_schema_of_entry(es[di]), sp_meta_of_value(mv)) {
                            (Some(t), Some(m)) => Some(
                                FieldView { name, data_type: t, is_nullable: nullable, meta: m },
                            ),
                            _ => Option::None,
                        }
                    },
                    _ => Option::None,
                }
            }
        },
        _ => Option::None,
    }
}

/// The provenance a value stands for: the text `None`, or a structure
/// carrying a `Json` path of strings.
pub open spec fn sp_meta_of_value(v: ValueView) -> Option<MetaView> {
    match v {
        ValueView::String(s) => if s == "None"@ {
            Some(MetaView::Absent)
        } else {
            Option::None
        },
        ValueView::Object(es) => {
            let ji = crate::value::key_index(es, "Json"@);
            if !(0 <= ji < es.len()) {
                Option::None
            } else {
                match es[ji].1 {
                    ValueView::Array(vs) => match sp_path_of_values(vs) {
                        Some(path) => Some(MetaView::Json(path)),
                        None => Option::None,
                    },
                    _ => Option::None,
                }
            }
        },
        _ => Option::None,
    }
}

/// The key path a value sequence stands for; every item must be a
/// string.
pub open spec fn sp_path_of_values(vs: Seq<ValueView>) -> Option<Seq<Seq<char>>>
    decreases vs.len(),
{
    if vs.len() == 0 {
        Some(Seq::empty())
    } else {
        match vs[0] {
            ValueView::String(s) => match sp_path_of_values(vs.drop_first()) {
                None => Option::None,
                Some(p) => Some(seq![s] + p),
            },
            _ => Option::None,
        }
    }
}

/// The data type a parsed interchange value stands for, as
/// `sp_schema_of_value` describes it.
#[verifier::rlimit(90)]
pub fn schema_from_value(v: &Value) -> (r: Result<DataType, Error>)
    ensures
        match r {
            Ok(t) => sp_schema_of_value(v@) == Some(t@),
            Err(_) => sp_schema_of_value(v@) is None,
        },
    decreases *v, 0int, 0int,
{
    let es = match v {
        Value::Object(es) => es,
        _ => {
            return Err(Error::InputError("expected a tagged type object".to_owned()));
        },
    };
    proof {
        crate::value::lemma_entries_view(es@);
    }
    let tag_v = match crate::value::obj_get(es, &"name".to_owned()) {
        Some(t) => t,
        None => {
            return Err(Error::InputError("missing type tag".to_owned()));
        },
    };
    let tag = match tag_v {
        Value::String(s) => s,
        _ => {
            return Err(Error::InputError("type tag is not a string".to_owned()));
        },
    };
    if *tag == "Null".to_owned() {
        proof {
            assert(sp_schema_of_value(v@) == Some(TypeView::Null));
        }
        Ok(DataType::Null)
    } else if *tag == "Bool".to_owned() {
        proof {
            assert(sp_schema_of_value(v@) == Some(TypeView::Bool));
        }
        Ok(DataType::Bool)
    } else if *tag == "String".to_owned() {
        proof {
            assert(sp_schema_of_value(v@) == Some(TypeView::String));
        }
        Ok(DataType::String)
    } else if *tag == "Binary".to_owned() {
        proof {
            assert(sp_schema_of_value(v@) == Some(TypeView::Binary));
        }
        Ok(DataType::Binary)
    } else if *tag == "Int".to_owned() {
        proof {
            assert(sp_schema_of_value(v@) == Some(TypeView::Int));
        }
        Ok(DataType::Int)
    } else if *tag == "Float".to_owned() {
        proof {
            assert(sp_schema_of_value(v@) == Some(TypeView::Float));
        }
        Ok(DataType::Float)
    } else if *tag == "Array".to_owned() {
        let child = match crate::value::obj_get(es, &"children".to_owned()) {
            Some(c) => c,
            None => {
                return Err(Error::InputError("missing element type".to_owned()));
            },
        };
        proof {
            let ci = crate::value::key_index(
                crate::value::entries_view(es@),
                "children"@,
            );
            assert(decreases_to!(es@ => es@[ci]));
            assert(decreases_to!(es@[ci] => es@[ci].1));
            assert(decreases_to!(*v => *child));
        }
        match schema_from_value(child) {
            Ok(t) => Ok(DataType::Array(Box::new(t))),
            Err(e) => Err(e),
        }
    } else if *tag == "Object".to_owned() {
        let child = match crate::value::obj_get(es, &"children".to_owned()) {
            Some(c) => c,
            None => {
                return Err(Error::InputError("missing field list".to_owned()));
            },
        };
        let items = match child {
            Value::Array(items) => items,
            _ => {
                return Err(Error::InputError("field list is not an array".to_owned()));
            },
        };
        proof {
            crate::value::lemma_values_view(items@);
            let ci = crate::value::key_index(
                crate::value::entries_view(es@),
                "children"@,
            );
            assert(decreases_to!(es@ => es@[ci]));
            assert(decreases_to!(es@[ci] => es@[ci].1));
            assert(decreases_to!(*v => *child));
            assert(decreases_to!(*child => *items));
            assert(decreases_to!(*v => *items));
        }
        match fields_from_values(items, 0) {
            Ok(fs) => {
                proof {
                    lemma_fields_view(fs@);
                    assert(crate::value::values_view(items@).skip(0) =~= crate::value::values_view(
                        items@,
                    ));
                }
                Ok(DataType::Object(fs))
            },
            Err(e) => Err(e),
        }
    } else {
        Err(Error::InputError("unknown type tag".to_owned()))
    }
}

/// The fields the values from `i` on stand for, as `sp_fields_of_values`
/// describes them.
fn fields_from_values(items: &Vec<Value>, i: usize) -> (r: Result<Vec<Field>, Error>)
    requires
        i <= items@.len(),
    ensures
        match r {
            Ok(fs) => sp_fields_of_values(crate::value::values_view(items@).skip(i as int))
                == Some(fields_view(fs@)),
            Err(_) => sp_fields_of_values(crate::value::values_view(items@).skip(i as int))
                is None,
        },
    decreases *items, 0int, items@.len() - i,
{
    proof {
        crate::value::lemma_values_view(items@);
    }
    let ghost tail = crate::value::values_view(items@).skip(i as int);
    if i < items.len() {
        proof {
            assert(tail[0] == crate::value::values_view(items@)[i as int]);
            assert(tail[0] == items@[i as int]@);
            assert(tail.drop_first() =~= crate::value::values_view(items@).skip(i as int + 1));
        }
        let item = &items[i];
        let f = match field_from_value(item) {
            Ok(f) => f,
            Err(e) => {
                return Err(e);
            },
        };
        match fields_from_values(items, i + 1) {
            Ok(mut fs) => {
                let ghost old_fs = fs@;
                fs.insert(0, f);
                proof {
                    assert(fs@ =~= seq![f] + old_fs);
                    lemma_fields_view(fs@);
                    lemma_fields_view(old_fs);
                    assert forall|j: int|
                        0 <= j < fs@.len() implies fields_view(fs@)[j] == (seq![f@] + fields_view(
                        old_fs,
                    ))[j] by {
                        if j > 0 {
                            assert(fs@[j] == old_fs[j - 1]);
                        }
                    }
                    assert(fields_view(fs@) =~= seq![f@] + fields_view(old_fs));
                }
                Ok(fs)
            },
            Err(e) => Err(e),
        }
    } else {
        proof {
            assert(tail.len() == 0);
        }
        Ok(Vec::new())
    }
}

/// The field one parsed value stands for, as `sp_field_of_value`
/// describes it.
#[verifier::rlimit(60)]
fn field_from_value(v: &Value) -> (r: Result<Field, Error>)
    ensures
        match r {
            Ok(f) => sp_field_of_value(v@) == Some(f@),
            Err(_) => sp_field_of_value(v@) is None,
        },
    decreases *v, 0int, 0int,
{
    let es = match v {
        Value::Object(es) => es,
        _ => {
            return Err(Error::InputError("field is not an object".to_owned()));
        },
    };
    proof {
        crate::value::lemma_entries_view(es@);
    }
    let name_v = match crate::value::obj_get(es, &"name".to_owned()) {
        Some(t) => t,
        None => {
            return Err(Error::InputError("field has no name".to_owned()));
        },
    };
    let dt_v = match crate::value::obj_get(es, &"data_type".to_owned()) {
        Some(t) => t,
        None => {
            return Err(Error::InputError("field has no type".to_owned()));
        },
    };
    let null_v = match crate::value::obj_get(es, &"is_nullable".to_owned()) {
        Some(t) => t,
        None => {
            return Err(Error::InputError("field has no nullability".to_owned()));
        },
    };
    let meta_v = match crate::value::obj_get(es, &"meta".to_owned()) {
        Some(t) => t,
        None => {
            return Err(Error::InputError("field has no provenance".to_owned()));
        },
    };
    let name = match name_v {
        Value::String(s) => s.clone(),
        _ => {
            return Err(Error::InputError("field name is not a string".to_owned()));
        },
    };
    let nullable = match null_v {
        Value::Bool(b) => *b,
        _ => {
            return Err(Error::InputError("nullability is not a boolean".to_owned()));
        },
    };
    proof {
        let di = crate::value::key_index(
            crate::value::entries_view(es@),
            "data_type"@,
        );
        assert(decreases_to!(es@ => es@[di]));
        assert(decreases_to!(es@[di] => es@[di].1));
        assert(decreases_to!(*v => *dt_v));
    }
    let dt = match schema_from_value(dt_v) {
        Ok(t) => t,
        Err(e) => {
            return Err(e);
        },
    };
    let meta = match meta_from_value(meta_v) {
        Ok(m) => m,
        Err(e) => {
            return Err(e);
        },
    };
    Ok(Field { name, data_type: dt, is_nullable: nullable, meta })
}

/// The provenance one parsed value stands for, as `sp_meta_of_value`
/// describes it.
#[verifier::rlimit(60)]
fn meta_from_value(v: &Value) -> (r: Result<FieldMeta, Error>)
    ensures
        match r {
            Ok(m) => sp_meta_of_value(v@) == Some(m@),
            Err(_) => sp_meta_of_value(v@) is None,
        },
{
    match v {
        Value::String(s) => {
            if *s == "None".to_owned() {
                Ok(FieldMeta::Absent)
            } else {
                Err(Error::InputError("unknown provenance".to_owned()))
            }
        },
        Value::Object(es) => {
            proof {
                crate::value::lemma_entries_view(es@);
            }
            let path_v = match crate::value::obj_get(es, &"Json".to_owned()) {
                Some(t) => t,
                None => {
                    return Err(Error::InputError("unknown provenance".to_owned()));
                },
            };
            let items = match path_v {
                Value::Array(items) => items,
                _ => {
                    return Err(Error::InputError("provenance path is not an array".to_owned()));
                },
            };
            proof {
                crate::value::lemma_values_view(items@);
            }
            let ghost outcome = sp_meta_of_value(v@);
            proof {
                assert(outcome == (match sp_path_of_values(crate::value::values_view(items@)) {
                    Some(p) => Some(MetaView::Json(p)),
                    None => Option::<MetaView>::None,
                }));
            }
            let mut path: Vec<String> = Vec::new();
            let mut k: usize = 0;
            while k < items.len()
                invariant
                    k <= items@.len(),
                    outcome == (match sp_path_of_values(crate::value::values_view(items@)) {
                        Some(p) => Some(MetaView::Json(p)),
                        None => Option::<MetaView>::None,
                    }),
                    outcome == sp_meta_of_value(v@),
                    crate::value::values_view(items@).len() == items@.len(),
                    forall|j: int| 0 <= j < items@.len() ==> crate::value::values_view(items@)[j]
                        == #[trigger] items@[j]@,
                    path@.len() == k as int,
                    forall|j: int|
                        0 <= j < k ==> ((#[trigger] items@[j]@) matches ValueView::String(s) && s
                            == path@[j]@),
                decreases items@.len() - k,
            {
                match &items[k] {
                    Value::String(s) => {
                        path.push(s.clone());
                    },
                    _ => {
                        proof {
                            assert(crate::value::values_view(items@)[k as int] == items@[k as int]@);
                            lemma_path_of_values_none(crate::value::values_view(items@), k as int);
                        }
                        return Err(Error::InputError("provenance path item is not a string".to_owned()));
                    },
                }
                k = k + 1;
            }
            proof {
                assert forall|j: int|
                    0 <= j < crate::value::values_view(items@).len() implies ((
                #[trigger] crate::value::values_view(items@)[j]) matches ValueView::String(s) && s
                    == Seq::new(path@.len(), |l: int| path@[l]@)[j]) by {
                    assert(crate::value::values_view(items@)[j] == items@[j]@);
                }
                lemma_path_of_values_some(
                    crate::value::values_view(items@),
                    Seq::new(path@.len(), |j: int| path@[j]@),
                );
                assert(FieldMeta::Json(path)@ == MetaView::Json(
                    Seq::new(path@.len(), |j: int| path@[j]@),
                ));
            }
            Ok(FieldMeta::Json(path))
        },
        _ => Err(Error::InputError("unknown provenance".to_owned())),
    }
}

/// A non-string item anywhere in a path makes the whole path stand for
/// nothing.
proof fn lemma_path_of_values_none(vs: Seq<ValueView>, i: int)
    requires
        0 <= i < vs.len(),
        !(vs[i] is String),
    ensures
        sp_path_of_values(vs) is None,
    decreases vs.len(),
{
    if i > 0 {
        assert(vs.drop_first()[i - 1] == vs[i]);
        lemma_path_of_values_none(vs.drop_first(), i - 1);
    }
}

/// A path of strings stands for exactly their texts, in order.
proof fn lemma_path_of_values_some(vs: Seq<ValueView>, texts: Seq<Seq<char>>)
    requires
        texts.len() == vs.len(),
        forall|j: int|
            0 <= j < vs.len() ==> ((#[trigger] vs[j]) matches ValueView::String(s) && s
                == texts[j]),
    ensures
        sp_path_of_values(vs) == Some(texts),
    decreases vs.len(),
{
    if vs.len() > 0 {
        assert forall|j: int|
            0 <= j < vs.drop_first().len() implies (#[trigger] vs.drop_first()[j]) matches
            ValueView::String(s) && s == texts.drop_first()[j] by {
            assert(vs.drop_first()[j] == vs[j + 1]);
            assert(texts.drop_first()[j] == texts[j + 1]);
        }
        lemma_path_of_values_some(vs.drop_first(), texts.drop_first());
        assert(vs[0] matches ValueView::String(s) && s == texts[0]);
        assert(seq![texts[0]] + texts.drop_first() =~= texts);
    }
}

} // verus!
