use crate::schema::fields_view;
use crate::schema::lemma_fields_view;
use crate::schema::DataType;
use crate::schema::Field;
use crate::schema::FieldMeta;
use crate::schema::FieldView;
use crate::schema::MetaView;
use crate::schema::TypeView;
use crate::unify::coerce_data_types;
use crate::unify::sp_unify_all;
use crate::unify::types_view;
use crate::value::entries_view;
use crate::value::entry_view;
use crate::value::lemma_entries_view;
use crate::value::lemma_values_view;
use crate::value::values_view;
use crate::value::Value;
use crate::value::ValueView;
use vstd::prelude::*;

verus! {

/// The sequence with every later duplicate dropped: each type keeps its
/// first occurrence, in first-seen order. The collapse keeps the set of
/// element types exactly (`lemma_dedup_same_set`); the unification fold
/// over it is what an array's element type is defined to be, and it can
/// differ from the fold over the raw list where a type recurs after a
/// widening — `Int, Bool, Float, Bool` folds to `Float` deduplicated but
/// to `String` raw, since the repeated `Bool` meets `Float` only in the
/// raw fold.
pub open spec fn sp_dedup(ts: Seq<TypeView>) -> Seq<TypeView>
    decreases ts.len(),
{
    if ts.len() == 0 {
        Seq::empty()
    } else {
        let init = sp_dedup(ts.drop_last());
        if init.contains(ts.last()) {
            init
        } else {
            init.push(ts.last())
        }
    }
}

/// The type of a single-record value: each variant maps to its type
/// directly; an object maps to one field per key, in the object's own
/// order, speculatively nullable exactly when the value itself is null;
/// an array's element type is the unification of the deduplicated set of
/// its element types.
pub open spec fn sp_infer(v: ValueView) -> TypeView
    decreases v, 2int,
{
    match v {
        ValueView::Null => TypeView::Null,
        ValueView::Bool(_) => TypeView::Bool,
        ValueView::String(_) => TypeView::String,
        ValueView::Int(_) => TypeView::Int,
        ValueView::Float(_) => TypeView::Float,
        ValueView::Binary(_) => TypeView::Binary,
        ValueView::Object(es) => TypeView::Object(sp_infer_fields(es)),
        ValueView::Array(vs) => TypeView::Array(
            Box::new(sp_unify_all(sp_dedup(sp_infer_elems(vs)))),
        ),
    }
}

/// The field inferred from one object entry.
pub open spec fn sp_infer_field(e: (Seq<char>, ValueView)) -> FieldView
    decreases e, 1int,
{
    FieldView {
        name: e.0,
        data_type: sp_infer(e.1),
        is_nullable: sp_infer(e.1) is Null,
        meta: MetaView::Absent,
    }
}

/// The fields inferred from an object's entries, in entry order.
pub open spec fn sp_infer_fields(es: Seq<(Seq<char>, ValueView)>) -> Seq<FieldView>
    decreases es, 0int,
{
    if es.len() == 0 {
        Seq::empty()
    } else {
        seq![sp_infer_field(es[0])] + sp_infer_fields(es.drop_first())
    }
}

/// The types inferred from an array's elements, in element order.
pub open spec fn sp_infer_elems(vs: Seq<ValueView>) -> Seq<TypeView>
    decreases vs, 0int,
{
    if vs.len() == 0 {
        Seq::empty()
    } else {
        seq![sp_infer(vs[0])] + sp_infer_elems(vs.drop_first())
    }
}

/// `sp_infer_fields` maps `sp_infer_field` over the entries.
pub proof fn lemma_sp_infer_fields(es: Seq<(Seq<char>, ValueView)>)
    ensures
        sp_infer_fields(es).len() == es.len(),
        forall|i: int|
            #![trigger sp_infer_fields(es)[i]]
            #![trigger sp_infer_field(es[i])]
            0 <= i < es.len() ==> sp_infer_fields(es)[i] == sp_infer_field(es[i]),
    decreases es.len(),
{
    if es.len() > 0 {
        lemma_sp_infer_fields(es.drop_first());
        assert(sp_infer_fields(es) == seq![sp_infer_field(es[0])] + sp_infer_fields(
            es.drop_first(),
        ));
        assert forall|i: int|
            0 <= i < es.len() implies sp_infer_fields(es)[i] == sp_infer_field(es[i]) by {
            if i > 0 {
                assert(es.drop_first()[i - 1] == es[i]);
                assert(sp_infer_fields(es)[i] == sp_infer_fields(es.drop_first())[i - 1]);
            }
        }
    }
}

/// `sp_infer_elems` maps `sp_infer` over the elements.
pub proof fn lemma_sp_infer_elems(vs: Seq<ValueView>)
    ensures
        sp_infer_elems(vs).len() == vs.len(),
        forall|i: int|
            #![trigger sp_infer_elems(vs)[i]]
            #![trigger sp_infer(vs[i])]
            0 <= i < vs.len() ==> sp_infer_elems(vs)[i] == sp_infer(vs[i]),
    decreases vs.len(),
{
    if vs.len() > 0 {
        lemma_sp_infer_elems(vs.drop_first());
        assert(sp_infer_elems(vs) == seq![sp_infer(vs[0])] + sp_infer_elems(vs.drop_first()));
        assert forall|i: int|
            0 <= i < vs.len() implies sp_infer_elems(vs)[i] == sp_infer(vs[i]) by {
            if i > 0 {
                assert(vs.drop_first()[i - 1] == vs[i]);
                assert(sp_infer_elems(vs)[i] == sp_infer_elems(vs.drop_first())[i - 1]);
            }
        }
    }
}

/// The deduplication of a type list, as `sp_dedup` describes it.
fn dedup_types(ts: &Vec<DataType>) -> (out: Vec<DataType>)
    ensures
        types_view(out@) == sp_dedup(types_view(ts@)),
{
    let mut out: Vec<DataType> = Vec::new();
    let mut i: usize = 0;
    proof {
        assert(types_view(ts@).take(0) =~= Seq::<TypeView>::empty());
        assert(types_view(out@) =~= sp_dedup(types_view(ts@).take(0)));
    }
    while i < ts.len()
        invariant
            i <= ts@.len(),
            types_view(out@) == sp_dedup(types_view(ts@).take(i as int)),
        decreases ts@.len() - i,
    {
        let t = &ts[i];
        let ghost tv = types_view(ts@);
        let ghost outv = types_view(out@);
        proof {
            assert(tv.take(i as int + 1).drop_last() =~= tv.take(i as int));
            assert(tv.take(i as int + 1).last() == tv[i as int]);
            assert(tv[i as int] == ts@[i as int]@);
        }
        let mut seen = false;
        let mut j: usize = 0;
        while j < out.len()
            invariant
                j <= out@.len(),
                outv == types_view(out@),
                t@ == ts@[i as int]@,
                i < ts@.len(),
                seen ==> outv.contains(ts@[i as int]@),
                !seen ==> forall|l: int| 0 <= l < j ==> outv[l] != ts@[i as int]@,
            decreases out@.len() - j,
        {
            if crate::schema::dt_eq(&out[j], t) {
                proof {
                    assert(outv[j as int] == out@[j as int]@);
                }
                seen = true;
            }
            proof {
                assert(outv[j as int] == out@[j as int]@);
            }
            j = j + 1;
        }
        if !seen {
            let copy = crate::schema::dt_clone(t);
            out.push(copy);
            proof {
                assert(!outv.contains(tv[i as int]));
                assert(types_view(out@) =~= outv.push(tv[i as int]));
            }
        } else {
            proof {
                assert(outv.contains(tv[i as int]));
            }
        }
        i = i + 1;
    }
    proof {
        assert(types_view(ts@).take(ts@.len() as int) =~= types_view(ts@));
    }
    out
}

/// The field inferred from one object entry, as `sp_infer_field` describes
/// it.
fn infer_entry(e: &(String, Value)) -> (r: Field)
    ensures
        r@ == sp_infer_field(entry_view(*e)),
    decreases *e, 1int,
{
    let dt = infer_value(&e.1);
    let is_null = match &dt {
        DataType::Null => true,
        _ => false,
    };
    Field { name: e.0.clone(), data_type: dt, is_nullable: is_null, meta: FieldMeta::Absent }
}

/// The fields inferred from an object's entries, as `sp_infer_fields`
/// describes them.
fn infer_fields(es: &Vec<(String, Value)>) -> (out: Vec<Field>)
    ensures
        fields_view(out@) == sp_infer_fields(entries_view(es@)),
    decreases *es, 0int,
{
    let mut out: Vec<Field> = Vec::new();
    let mut i: usize = 0;
    proof {
        lemma_entries_view(es@);
        lemma_sp_infer_fields(entries_view(es@));
    }
    while i < es.len()
        invariant
            i <= es@.len(),
            out@.len() == i as int,
            entries_view(es@).len() == es@.len(),
            sp_infer_fields(entries_view(es@)).len() == es@.len(),
            forall|j: int| 0 <= j < es@.len() ==> entries_view(es@)[j] == entry_view(
                #[trigger] es@[j],
            ),
            forall|j: int|
                0 <= j < es@.len() ==> #[trigger] sp_infer_fields(entries_view(es@))[j]
                    == sp_infer_field(entries_view(es@)[j]),
            forall|j: int| 0 <= j < i ==> #[trigger] out@[j]@ == sp_infer_fields(
                entries_view(es@),
            )[j],
        decreases es@.len() - i,
    {
        let e = &es[i];
        let f = infer_entry(e);
        proof {
            assert(entries_view(es@)[i as int] == entry_view(es@[i as int]));
        }
        out.push(f);
        i = i + 1;
    }
    proof {
        lemma_fields_view(out@);
        assert forall|j: int|
            0 <= j < es@.len() implies fields_view(out@)[j] == sp_infer_fields(
            entries_view(es@),
        )[j] by {
            assert(fields_view(out@)[j] == out@[j]@);
        }
        assert(fields_view(out@) =~= sp_infer_fields(entries_view(es@)));
    }
    out
}

/// The types inferred from an array's elements, as `sp_infer_elems`
/// describes them.
fn infer_elems(vs: &Vec<Value>) -> (out: Vec<DataType>)
    ensures
        types_view(out@) == sp_infer_elems(values_view(vs@)),
    decreases *vs, 0int,
{
    let mut out: Vec<DataType> = Vec::new();
    let mut i: usize = 0;
    proof {
        lemma_values_view(vs@);
        lemma_sp_infer_elems(values_view(vs@));
    }
    while i < vs.len()
        invariant
            i <= vs@.len(),
            out@.len() == i as int,
            values_view(vs@).len() == vs@.len(),
            sp_infer_elems(values_view(vs@)).len() == vs@.len(),
            forall|j: int| 0 <= j < vs@.len() ==> values_view(vs@)[j] == #[trigger] vs@[j]@,
            forall|j: int|
                0 <= j < vs@.len() ==> #[trigger] sp_infer_elems(values_view(vs@))[j] == sp_infer(
                    values_view(vs@)[j],
                ),
            forall|j: int| 0 <= j < i ==> #[trigger] out@[j]@ == sp_infer_elems(
                values_view(vs@),
            )[j],
        decreases vs@.len() - i,
    {
        let v = &vs[i];
        let dt = infer_value(v);
        proof {
            assert(values_view(vs@)[i as int] == vs@[i as int]@);
        }
        out.push(dt);
        i = i + 1;
    }
    proof {
        assert forall|j: int|
            0 <= j < vs@.len() implies types_view(out@)[j] == sp_infer_elems(
            values_view(vs@),
        )[j] by {
            assert(types_view(out@)[j] == out@[j]@);
        }
        assert(types_view(out@) =~= sp_infer_elems(values_view(vs@)));
    }
    out
}

/// The type of a single-record value, as `sp_infer` describes it: total
/// over the whole value domain, with no failure mode.
pub fn infer_value(v: &Value) -> (r: DataType)
    ensures
        r@ == sp_infer(v@),
    decreases *v, 2int,
{
    match v {
        Value::Null => DataType::Null,
        Value::Bool(_) => DataType::Bool,
        Value::String(_) => DataType::String,
        Value::Int(_) => DataType::Int,
        Value::Float(_) => DataType::Float,
        Value::Binary(_) => DataType::Binary,
        Value::Object(es) => DataType::Object(infer_fields(es)),
        Value::Array(vs) => {
            let el_types = infer_elems(vs);
            let deduped = dedup_types(&el_types);
            let unified = coerce_data_types(&deduped);
            DataType::Array(Box::new(unified))
        },
    }
}

} // verus!
