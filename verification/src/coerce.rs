use crate::error::Error;
use crate::jsontext::json_of;
use crate::jsontext::lemma_json_valid;
use crate::jsontext::to_json;
use crate::schema::fields_view;
use crate::schema::lemma_fields_view;
use crate::schema::DataType;
use crate::schema::Field;
use crate::schema::FieldView;
use crate::schema::TypeView;
use crate::textnum::int_text;
use crate::textnum::int_to_string;
use crate::textnum::parse_integer;
use crate::textnum::sp_parse_i64;
use crate::textnum::string_from_utf8;
use crate::unify::sp_has_field;
use crate::value::entries_view;
use crate::value::entry_view;
use crate::value::has_key;
use crate::value::key_index;
use crate::value::lemma_entries_view;
use crate::value::lemma_key_index;
use crate::value::lemma_values_view;
use crate::value::values_view;
use crate::value::Value;
use crate::value::ValueView;
use vstd::prelude::*;
use vstd::utf8::decode_utf8;

verus! {

/// Whether a value can be driven onto a target type at all: exactly the
/// pairings that coercion defines. A failing string-to-integer parse is a
/// recoverable error, so such a pairing still counts as coercible; any
/// pairing outside this set is a schema that unification can never have
/// produced for this value.
pub open spec fn sp_coercible(v: ValueView, t: TypeView, rec: bool) -> bool
    decreases v, 2int,
{
    match (v, t) {
        (ValueView::Null, _) => true,
        (ValueView::Bool(_), TypeView::Int) => true,
        (ValueView::Bool(_), TypeView::Bool) => true,
        (ValueView::Int(_), TypeView::Int) => true,
        (ValueView::Int(_), TypeView::Float) => true,
        (ValueView::Int(_), TypeView::String) => true,
        (ValueView::Float(_), TypeView::Float) => true,
        (ValueView::Float(_), TypeView::String) => true,
        (ValueView::String(_), TypeView::String) => true,
        (ValueView::String(_), TypeView::Int) => true,
        (ValueView::Binary(_), TypeView::Binary) => true,
        (ValueView::Array(vs), TypeView::Array(et)) => sp_coercible_elems(vs, *et, rec),
        (ValueView::Object(es), TypeView::Object(fs)) => !rec || sp_coercible_fields(es, fs, rec),
        (_, TypeView::String) => true,
        _ => false,
    }
}

/// Whether every element of an array is coercible to the element type.
pub open spec fn sp_coercible_elems(vs: Seq<ValueView>, t: TypeView, rec: bool) -> bool
    decreases vs, 1int,
{
    forall|j: int| 0 <= j < vs.len() ==> sp_coercible(#[trigger] vs[j], t, rec)
}

/// Whether every target field's value, where the object carries one, is
/// coercible to the field's type.
pub open spec fn sp_coercible_fields(
    es: Seq<(Seq<char>, ValueView)>,
    fs: Seq<FieldView>,
    rec: bool,
) -> bool
    decreases es, 1int,
{
    forall|j: int|
        0 <= j < fs.len() ==> {
            let i = key_index(es, (#[trigger] fs[j]).name);
            0 <= i < es.len() ==> sp_coercible_entry(es[i], fs[j].data_type, rec)
        }
}

/// Whether one carried entry's value is coercible to a type.
pub open spec fn sp_coercible_entry(e: (Seq<char>, ValueView), t: TypeView, rec: bool) -> bool
    decreases e, 3int,
{
    sp_coercible(e.1, t, rec)
}

/// The entries whose keys name no target field, in their original order.
pub open spec fn sp_extra_entries(es: Seq<(Seq<char>, ValueView)>, fs: Seq<FieldView>) -> Seq<
    (Seq<char>, ValueView),
> {
    es.filter(|e: (Seq<char>, ValueView)| !sp_has_field(fs, e.0))
}

/// The coercion of a value onto a target type: matching variants pass
/// through, booleans widen to integers, integers widen to floats or
/// render as text, strings parse strictly into integers, nulls pass
/// through everywhere, arrays coerce element by element, an object is
/// rebuilt in target field order with nulls for missing fields, and any
/// remaining pairing renders as the value's JSON text when the target is
/// `String`. A float's decimal text passes through verbatim to `Float`
/// and `String` targets, exponent form included. `None` is the
/// recoverable failure of a strict parse.
pub open spec fn sp_coerce(v: ValueView, t: TypeView, rec: bool) -> Option<ValueView>
    decreases v, 2int,
{
    match (v, t) {
        (ValueView::Null, _) => Some(ValueView::Null),
        (ValueView::Bool(b), TypeView::Int) => Some(
            ValueView::Int(
                if b {
                    1
                } else {
                    0
                },
            ),
        ),
        (ValueView::Bool(_), TypeView::Bool) => Some(v),
        (ValueView::Int(_), TypeView::Int) => Some(v),
        (ValueView::Int(a), TypeView::Float) => Some(ValueView::Float(int_text(a as int))),
        (ValueView::Int(a), TypeView::String) => Some(ValueView::String(int_text(a as int))),
        (ValueView::Float(_), TypeView::Float) => Some(v),
        (ValueView::Float(f), TypeView::String) => Some(ValueView::String(f)),
        (ValueView::String(_), TypeView::String) => Some(v),
        (ValueView::String(s), TypeView::Int) => match sp_parse_i64(s) {
            Some(i) => Some(ValueView::Int(i)),
            None => None,
        },
        (ValueView::Binary(_), TypeView::Binary) => Some(v),
        (ValueView::Array(vs), TypeView::Array(et)) => match sp_coerce_elems(vs, *et, rec) {
            Some(ws) => Some(ValueView::Array(ws)),
            None => None,
        },
        (ValueView::Object(es), TypeView::Object(fs)) => if rec {
            match sp_coerce_fields(es, fs, rec) {
                Some(main) => Some(ValueView::Object(main + sp_extra_entries(es, fs))),
                None => None,
            }
        } else {
            Some(v)
        },
        (_, TypeView::String) => Some(ValueView::String(decode_utf8(json_of(v)))),
        _ => None,
    }
}

/// The element-wise coercion of an array's elements.
pub open spec fn sp_coerce_elems(vs: Seq<ValueView>, t: TypeView, rec: bool) -> Option<
    Seq<ValueView>,
>
    decreases vs, 1int,
{
    if vs.len() == 0 {
        Some(Seq::empty())
    } else {
        match sp_coerce(vs[0], t, rec) {
            None => None,
            Some(w) => match sp_coerce_elems(vs.drop_first(), t, rec) {
                None => None,
                Some(ws) => Some(seq![w] + ws),
            },
        }
    }
}

/// The coercion of one carried entry's value.
pub open spec fn sp_coerce_entry(e: (Seq<char>, ValueView), t: TypeView, rec: bool) -> Option<
    ValueView,
>
    decreases e, 3int,
{
    sp_coerce(e.1, t, rec)
}

/// The target-ordered part of an object coercion: one entry per target
/// field, in target order, the carried value coerced where the object has
/// the key and `Null` where it does not.
pub open spec fn sp_coerce_fields(
    es: Seq<(Seq<char>, ValueView)>,
    fs: Seq<FieldView>,
    rec: bool,
) -> Option<Seq<(Seq<char>, ValueView)>>
    decreases es, 0int, fs.len(),
{
    if fs.len() == 0 {
        Some(Seq::empty())
    } else {
        let f = fs[0];
        let i = key_index(es, f.name);
        let head = if 0 <= i < es.len() {
            sp_coerce_entry(es[i], f.data_type, rec)
        } else {
            Some(ValueView::Null)
        };
        match head {
            None => None,
            Some(w) => match sp_coerce_fields(es, fs.drop_first(), rec) {
                None => None,
                Some(ws) => Some(seq![(f.name, w)] + ws),
            },
        }
    }
}


/// The element-wise coercion of an array, as `sp_coerce_elems` describes
/// it.
fn coerce_elems(vs: &Vec<Value>, t: &DataType, rec: bool) -> (r: Result<Vec<Value>, Error>)
    requires
        sp_coercible_elems(values_view(vs@), t@, rec),
    ensures
        match r {
            Ok(ws) => sp_coerce_elems(values_view(vs@), t@, rec) == Some(values_view(ws@)),
            Err(_) => sp_coerce_elems(values_view(vs@), t@, rec) is None,
        },
    decreases *vs, 1int, 0int,
{
    let ghost origv = values_view(vs@);
    let mut out: Vec<Value> = Vec::new();
    let mut i: usize = 0;
    proof {
        lemma_values_view(vs@);
    }
    while i < vs.len()
        invariant
            i <= vs@.len(),
            origv == values_view(vs@),
            origv.len() == vs@.len(),
            forall|j: int| 0 <= j < origv.len() ==> origv[j] == #[trigger] vs@[j]@,
            sp_coercible_elems(origv, t@, rec),
            out@.len() == i as int,
            forall|j: int| 0 <= j < i ==> sp_coerce(origv[j], t@, rec) == Some(
                #[trigger] out@[j]@,
            ),
        decreases vs@.len() - i,
    {
        let item = &vs[i];
        match coerce_value(item, t, rec) {
            Ok(w) => {
                out.push(w);
            },
            Err(e) => {
                proof {
                    lemma_sp_coerce_elems_none(origv, t@, rec, i as int);
                }
                return Err(e);
            },
        }
        i = i + 1;
    }
    proof {
        lemma_values_view(out@);
        lemma_sp_coerce_elems_some(origv, t@, rec, values_view(out@));
    }
    Ok(out)
}

/// If one element's coercion fails, the element-wise coercion fails.
pub proof fn lemma_sp_coerce_elems_none(vs: Seq<ValueView>, t: TypeView, rec: bool, i: int)
    requires
        0 <= i < vs.len(),
        sp_coerce(vs[i], t, rec) is None,
    ensures
        sp_coerce_elems(vs, t, rec) is None,
    decreases vs.len(),
{
    if i > 0 {
        assert(vs.drop_first()[i - 1] == vs[i]);
        lemma_sp_coerce_elems_none(vs.drop_first(), t, rec, i - 1);
    }
}

/// If every element's coercion succeeds with the matching result, the
/// element-wise coercion succeeds with the results in order.
pub proof fn lemma_sp_coerce_elems_some(vs: Seq<ValueView>, t: TypeView, rec: bool, ws: Seq<ValueView>)
    requires
        ws.len() == vs.len(),
        forall|j: int| 0 <= j < vs.len() ==> sp_coerce(#[trigger] vs[j], t, rec) == Some(ws[j]),
    ensures
        sp_coerce_elems(vs, t, rec) == Some(ws),
    decreases vs.len(),
{
    if vs.len() > 0 {
        assert(sp_coerce(vs[0], t, rec) == Some(ws[0]));
        assert forall|j: int|
            0 <= j < vs.drop_first().len() implies sp_coerce(
            #[trigger] vs.drop_first()[j],
            t,
            rec,
        ) == Some(ws.drop_first()[j]) by {
            assert(vs.drop_first()[j] == vs[j + 1]);
            assert(ws.drop_first()[j] == ws[j + 1]);
        }
        lemma_sp_coerce_elems_some(vs.drop_first(), t, rec, ws.drop_first());
        assert(seq![ws[0]] + ws.drop_first() =~= ws);
    }
}

/// The coercion of one carried entry's value, as `sp_coerce_entry`
/// describes it.
fn coerce_entry_value(e: &(String, Value), t: &DataType, rec: bool) -> (r: Result<Value, Error>)
    requires
        sp_coercible_entry(entry_view(*e), t@, rec),
    ensures
        match r {
            Ok(w) => sp_coerce_entry(entry_view(*e), t@, rec) == Some(w@),
            Err(_) => sp_coerce_entry(entry_view(*e), t@, rec) is None,
        },
    decreases *e, 1int, 0int,
{
    coerce_value(&e.1, t, rec)
}

/// The object coercion onto a target field list, as `sp_coerce_fields`
/// and `sp_extra_entries` together describe it.
fn coerce_object(es: &Vec<(String, Value)>, fs: &Vec<Field>, rec: bool) -> (r: Result<
    Vec<(String, Value)>,
    Error,
>)
    requires
        sp_coercible_fields(entries_view(es@), fields_view(fs@), rec),
    ensures
        match r {
            Ok(ws) => sp_coerce_fields(entries_view(es@), fields_view(fs@), rec) matches Some(main)
                && entries_view(ws@) == main + sp_extra_entries(
                entries_view(es@),
                fields_view(fs@),
            ),
            Err(_) => sp_coerce_fields(entries_view(es@), fields_view(fs@), rec) is None,
        },
    decreases *es, 0int, 0int,
{
    let ghost origv = entries_view(es@);
    let ghost fsv = fields_view(fs@);
    let mut out: Vec<(String, Value)> = Vec::new();
    let mut k: usize = 0;
    proof {
        lemma_entries_view(es@);
        lemma_fields_view(fs@);
        assert(fsv.skip(0) =~= fsv);
    }
    while k < fs.len()
        invariant
            k <= fs@.len(),
            fsv == fields_view(fs@),
            fsv.len() == fs@.len(),
            origv == entries_view(es@),
            origv.len() == es@.len(),
            sp_coercible_fields(origv, fsv, rec),
            forall|j: int| 0 <= j < fs@.len() ==> fields_view(fs@)[j] == #[trigger] fs@[j]@,
            forall|j: int| 0 <= j < es@.len() ==> origv[j] == entry_view(#[trigger] es@[j]),
            ({
                let done = sp_coerce_fields(origv, fsv.skip(k as int), rec);
                match sp_coerce_fields(origv, fsv, rec) {
                    Some(whole) => done matches Some(ws) && whole == entries_view(out@) + ws,
                    None => done is None,
                }
            }),
        decreases fs@.len() - k,
    {
        let f = &fs[k];
        let ghost tail = fsv.skip(k as int);
        proof {
            assert(tail[0] == fsv[k as int]);
            assert(tail[0] == fs@[k as int]@);
            assert(tail.drop_first() =~= fsv.skip(k as int + 1));
            lemma_key_index(origv, tail[0].name);
        }
        let found = crate::value::find_entry(es, &f.name);
        let ghost ki = key_index(origv, tail[0].name);
        proof {
            match found {
                Some(i) => {
                    assert(origv[i as int] == entry_view(es@[i as int]));
                    assert(origv[i as int].0 == tail[0].name);
                    assert(has_key(origv, tail[0].name));
                    assert forall|j: int| 0 <= j < i implies origv[j].0 != tail[0].name by {
                        assert(origv[j] == entry_view(es@[j]));
                    }
                    assert(ki == i as int) by {
                        if ki < i as int {
                            assert(origv[ki].0 == tail[0].name);
                        }
                        if ki > i as int {
                            assert(origv[i as int].0 != tail[0].name);
                        }
                    }
                },
                None => {
                    assert forall|j: int|
                        0 <= j < origv.len() implies origv[j].0 != tail[0].name by {
                        assert(origv[j] == entry_view(es@[j]));
                    }
                    assert(!has_key(origv, tail[0].name));
                    assert(ki == -1);
                },
            }
        }
        let coerced: Value = match found {
            Some(i) => {
                let entry = &es[i];
                proof {
                    assert(entry_view(*entry).1 == origv[ki].1);
                    assert(sp_coercible_entry(origv[ki], tail[0].data_type, rec));
                }
                match coerce_entry_value(entry, &f.data_type, rec) {
                    Ok(w) => {
                        proof {
                            assert(sp_coerce_entry(origv[ki], tail[0].data_type, rec) == Some(w@));
                        }
                        w
                    },
                    Err(e) => {
                        proof {
                            assert(sp_coerce_fields(origv, tail, rec) is None);
                        }
                        return Err(e);
                    },
                }
            },
            None => Value::Null,
        };
        let ghost out_snap = out@;
        out.push((f.name.clone(), coerced));
        proof {
            lemma_entries_view(out@);
            assert(out@.drop_last() =~= out_snap);
            crate::value::lemma_entries_view(out_snap);
            assert(entries_view(out@) =~= entries_view(out_snap).push((tail[0].name, coerced@)));
            let rest = sp_coerce_fields(origv, tail.drop_first(), rec);
            if ki >= 0 {
                assert(sp_coerce_entry(origv[ki], tail[0].data_type, rec) == Some(coerced@));
            }
            assert(sp_coerce_fields(origv, tail, rec) == (match rest {
                Some(ws) => Some(seq![(tail[0].name, coerced@)] + ws),
                None => Option::<Seq<(Seq<char>, ValueView)>>::None,
            }));
            if rest is Some {
                assert(entries_view(out@) + rest->Some_0 =~= entries_view(out_snap) + (seq![
                    (tail[0].name, coerced@),
                ] + rest->Some_0));
            }
        }
        k = k + 1;
    }
    proof {
        assert(fsv.skip(fs@.len() as int) =~= Seq::<FieldView>::empty());
        assert(sp_coerce_fields(origv, Seq::<FieldView>::empty(), rec) == Some(
            Seq::<(Seq<char>, ValueView)>::empty(),
        ));
        assert(entries_view(out@) + Seq::<(Seq<char>, ValueView)>::empty() =~= entries_view(out@));
        assert(sp_coerce_fields(origv, fsv, rec) == Some(entries_view(out@)));
    }
    let ghost main = entries_view(out@);
    let ghost pred = |e: (Seq<char>, ValueView)| !sp_has_field(fsv, e.0);
    let mut j: usize = 0;
    proof {
        reveal_with_fuel(Seq::<_>::filter, 2);
        assert(origv.take(0).filter(pred) =~= Seq::<(Seq<char>, ValueView)>::empty());
        assert(entries_view(out@) =~= main + origv.take(0).filter(pred));
    }
    while j < es.len()
        invariant
            j <= es@.len(),
            es@.len() == origv.len(),
            fsv == fields_view(fs@),
            origv == entries_view(es@),
            pred == (|e: (Seq<char>, ValueView)| !sp_has_field(fsv, e.0)),
            forall|l: int| 0 <= l < es@.len() ==> origv[l] == entry_view(#[trigger] es@[l]),
            entries_view(out@) == main + origv.take(j as int).filter(pred),
        decreases es@.len() - j,
    {
        proof {
            reveal_with_fuel(Seq::<_>::filter, 2);
            assert(origv.take(j as int + 1).drop_last() =~= origv.take(j as int));
            assert(origv.take(j as int + 1).last() == origv[j as int]);
            assert(origv[j as int] == entry_view(es@[j as int]));
        }
        let name_hit = crate::unify::find_field(fs, &es[j].0);
        proof {
            crate::unify::lemma_sp_field_index(fsv, origv[j as int].0);
        }
        match name_hit {
            Some(_) => {
                proof {
                    reveal_with_fuel(Seq::<_>::filter, 2);
                    assert(crate::unify::sp_field_index(fsv, origv[j as int].0) >= 0);
                    assert(crate::unify::sp_has_field(fsv, origv[j as int].0));
                    assert(sp_has_field(fsv, origv[j as int].0));
                    assert(!pred(origv[j as int]));
                    assert(origv.take(j as int + 1).filter(pred) == origv.take(
                        j as int + 1,
                    ).drop_last().filter(pred));
                    assert(origv.take(j as int + 1).filter(pred) =~= origv.take(j as int).filter(
                        pred,
                    ));
                    assert(entries_view(out@) =~= main + origv.take(j as int + 1).filter(pred));
                }
            },
            None => {
                proof {
                    assert(crate::unify::sp_field_index(fsv, origv[j as int].0) == -1);
                    assert(!sp_has_field(fsv, origv[j as int].0));
                    assert(pred(origv[j as int]));
                }
                let entry = &es[j];
                let key = entry.0.clone();
                let val = entry.1.deep_clone();
                let ghost out_snap = out@;
                out.push((key, val));
                proof {
                    reveal_with_fuel(Seq::<_>::filter, 2);
                    lemma_entries_view(out@);
                    crate::value::lemma_entries_view(out_snap);
                    assert(out@.drop_last() =~= out_snap);
                    assert(entries_view(out@) =~= entries_view(out_snap).push(
                        (origv[j as int].0, origv[j as int].1),
                    ));
                    assert(origv.take(j as int + 1).filter(pred) == origv.take(
                        j as int + 1,
                    ).drop_last().filter(pred).push(origv.take(j as int + 1).last()));
                    assert(origv.take(j as int + 1).filter(pred) =~= origv.take(j as int).filter(
                        pred,
                    ).push(origv[j as int]));
                    assert(entries_view(out@) =~= main + origv.take(j as int + 1).filter(pred));
                }
            },
        }
        j = j + 1;
    }
    proof {
        assert(origv.take(origv.len() as int) =~= origv);
        assert(sp_extra_entries(origv, fsv) == origv.filter(pred));
    }
    Ok(out)
}

/// The coercion of a value onto a target type, as `sp_coerce` describes
/// it: a recoverable error exactly where a strict parse fails, and the
/// coerced value everywhere else.
pub fn coerce_value(value: &Value, data_type: &DataType, recursive: bool) -> (r: Result<
    Value,
    Error,
>)
    requires
        sp_coercible(value@, data_type@, recursive),
    ensures
        match r {
            Ok(w) => sp_coerce(value@, data_type@, recursive) == Some(w@),
            Err(_) => sp_coerce(value@, data_type@, recursive) is None,
        },
    decreases *value, 2int, 0int,
{
    match (value, data_type) {
        (Value::Null, _) => Ok(Value::Null),
        (Value::Bool(b), DataType::Int) => Ok(
            Value::Int(
                if *b {
                    1
                } else {
                    0
                },
            ),
        ),
        (Value::Bool(b), DataType::Bool) => Ok(Value::Bool(*b)),
        (Value::Int(a), DataType::Int) => Ok(Value::Int(*a)),
        (Value::Int(a), DataType::Float) => Ok(Value::Float(int_to_string(*a))),
        (Value::Int(a), DataType::String) => Ok(Value::String(int_to_string(*a))),
        (Value::Float(t), DataType::Float) => Ok(Value::Float(t.clone())),
        (Value::Float(t), DataType::String) => Ok(Value::String(t.clone())),
        (Value::String(s), DataType::String) => Ok(Value::String(s.clone())),
        (Value::String(s), DataType::Int) => match parse_integer(s.as_str()) {
            Ok(i) => Ok(Value::Int(i)),
            Err(e) => Err(e),
        },
        (Value::Binary(_), DataType::Binary) => Ok(value.deep_clone()),
        (Value::Array(vs), DataType::Array(et)) => {
            proof {
                lemma_values_view(vs@);
            }
            match coerce_elems(vs, et, recursive) {
                Ok(ws) => Ok(Value::Array(ws)),
                Err(e) => Err(e),
            }
        },
        (Value::Object(es), DataType::Object(fs)) => {
            if recursive {
                proof {
                    lemma_entries_view(es@);
                    lemma_fields_view(fs@);
                }
                match coerce_object(es, fs, recursive) {
                    Ok(ws) => Ok(Value::Object(ws)),
                    Err(e) => Err(e),
                }
            } else {
                Ok(value.deep_clone())
            }
        },
        (other, DataType::String) => {
            let bytes = to_json(other);
            proof {
                lemma_json_valid(other@);
            }
            match string_from_utf8(bytes) {
                Some(s) => Ok(Value::String(s)),
                None => {
                    proof {
                        assert(false);
                    }
                    Err(Error::CustomError("rendered JSON text is always valid UTF-8".to_owned()))
                },
            }
        },
        (_, _) => {
            proof {
                assert(false);
            }
            Err(Error::CustomError("no coercion is defined for this pairing".to_owned()))
        },
    }
}

impl Value {
    /// The value coerced onto a target type, as `sp_coerce` describes it.
    pub fn coerce(&self, dt: &DataType, recursive: bool) -> (r: Result<Value, Error>)
        requires
            sp_coercible(self@, dt@, recursive),
        ensures
            match r {
                Ok(w) => sp_coerce(self@, dt@, recursive) == Some(w@),
                Err(_) => sp_coerce(self@, dt@, recursive) is None,
            },
    {
        coerce_value(self, dt, recursive)
    }
}

} // verus!
