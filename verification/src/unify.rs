use crate::schema::dt_clone;
use crate::schema::dt_eq;
use crate::schema::fields_view;
use crate::schema::lemma_fields_view;
use crate::schema::DataType;
use crate::schema::Field;
use crate::schema::FieldView;
use crate::schema::TypeView;
use vstd::prelude::*;

verus! {

/// The index of the first field named `name`, or `-1`.
pub open spec fn sp_field_index(fs: Seq<FieldView>, name: Seq<char>) -> int
    decreases fs.len(),
{
    if fs.len() == 0 {
        -1
    } else if fs[0].name == name {
        0
    } else {
        let r = sp_field_index(fs.drop_first(), name);
        if r < 0 {
            -1
        } else {
            r + 1
        }
    }
}

/// Whether some field carries the name `name`.
pub open spec fn sp_has_field(fs: Seq<FieldView>, name: Seq<char>) -> bool {
    exists|i: int| 0 <= i < fs.len() && fs[i].name == name
}

/// `sp_field_index` finds exactly the first field with the given name.
pub proof fn lemma_sp_field_index(fs: Seq<FieldView>, name: Seq<char>)
    ensures
        sp_has_field(fs, name) <==> sp_field_index(fs, name) >= 0,
        sp_field_index(fs, name) >= 0 ==> {
            let i = sp_field_index(fs, name);
            &&& i < fs.len()
            &&& fs[i].name == name
            &&& forall|j: int| 0 <= j < i ==> fs[j].name != name
        },
    decreases fs.len(),
{
    if fs.len() > 0 && fs[0].name != name {
        lemma_sp_field_index(fs.drop_first(), name);
        let r = sp_field_index(fs.drop_first(), name);
        if r >= 0 {
            assert(fs.drop_first()[r] == fs[r + 1]);
            assert forall|j: int| 0 <= j < r + 1 implies fs[j].name != name by {
                if j > 0 {
                    assert(fs.drop_first()[j - 1] == fs[j]);
                }
            }
            assert(sp_has_field(fs, name));
        }
        if sp_has_field(fs, name) {
            let i = choose|i: int| 0 <= i < fs.len() && fs[i].name == name;
            assert(fs.drop_first()[i - 1] == fs[i]);
            assert(sp_has_field(fs.drop_first(), name));
        }
    }
}

/// The same field, marked nullable.
pub open spec fn sp_nullable(f: FieldView) -> FieldView {
    FieldView { name: f.name, data_type: f.data_type, is_nullable: true, meta: f.meta }
}

/// Every field marked nullable, order kept.
pub open spec fn sp_mark_nullable(fs: Seq<FieldView>) -> Seq<FieldView> {
    fs.map_values(|f: FieldView| sp_nullable(f))
}

/// The merge of one matched field pair: if either side's type is `Null`,
/// the merged field is marked nullable and takes the other side's type;
/// otherwise the types are unified and the field is nullable when either
/// side was — nullability never reverts. The left side's provenance is
/// kept.
pub open spec fn sp_merge_field(fa: FieldView, fb: FieldView) -> FieldView
    decreases fa, 0int,
{
    if fb.data_type is Null {
        FieldView {
            name: fa.name,
            data_type: fa.data_type,
            is_nullable: true,
            meta: fa.meta,
        }
    } else if fa.data_type is Null {
        FieldView {
            name: fa.name,
            data_type: fb.data_type,
            is_nullable: true,
            meta: fa.meta,
        }
    } else {
        FieldView {
            name: fa.name,
            data_type: sp_unify(fa.data_type, fb.data_type),
            is_nullable: fa.is_nullable || fb.is_nullable,
            meta: fa.meta,
        }
    }
}

/// The field-wise merge of two object field lists: all left fields in left
/// order, matched by name against the right side, then the remaining right
/// fields in right order, marked nullable.
pub open spec fn sp_merge_fields(ls: Seq<FieldView>, rs: Seq<FieldView>) -> Seq<FieldView>
    decreases ls, 1int,
{
    if ls.len() == 0 {
        sp_mark_nullable(rs)
    } else {
        let fi = sp_field_index(rs, ls[0].name);
        if fi < 0 {
            seq![sp_nullable(ls[0])] + sp_merge_fields(ls.drop_first(), rs)
        } else {
            seq![sp_merge_field(ls[0], rs[fi])] + sp_merge_fields(ls.drop_first(), rs.remove(fi))
        }
    }
}

/// The unification of two data types: the least type both can be
/// projected onto, with `String` as the universal fallback and `Null` as
/// the identity.
pub open spec fn sp_unify(a: TypeView, b: TypeView) -> TypeView
    decreases a, 2int,
{
    if a == b {
        a
    } else {
        match (a, b) {
            (TypeView::Null, _) => b,
            (_, TypeView::Null) => a,
            (TypeView::Array(x), TypeView::Array(y)) => TypeView::Array(
                Box::new(sp_unify(*x, *y)),
            ),
            (TypeView::Object(ls), TypeView::Object(rs)) => TypeView::Object(
                sp_merge_fields(ls, rs),
            ),
            (TypeView::Float, TypeView::Int) => TypeView::Float,
            (TypeView::Int, TypeView::Float) => TypeView::Float,
            (TypeView::Int, TypeView::Bool) => TypeView::Int,
            (TypeView::Bool, TypeView::Int) => TypeView::Int,
            _ => TypeView::String,
        }
    }
}

/// The left fold of `sp_unify` over a sequence of types, with `Null` as
/// the identity for the empty case.
pub open spec fn sp_unify_all(ts: Seq<TypeView>) -> TypeView
    decreases ts.len(),
{
    if ts.len() == 0 {
        TypeView::Null
    } else {
        sp_unify(sp_unify_all(ts.drop_last()), ts.last())
    }
}

/// The index of the first field named `name`, searching in order.
pub fn find_field(fs: &Vec<Field>, name: &String) -> (r: Option<usize>)
    ensures
        match r {
            Some(i) => i < fs@.len() && sp_field_index(fields_view(fs@), name@) == i as int,
            None => sp_field_index(fields_view(fs@), name@) == -1,
        },
{
    proof {
        lemma_fields_view(fs@);
        lemma_sp_field_index(fields_view(fs@), name@);
    }
    let mut i: usize = 0;
    while i < fs.len()
        invariant
            i <= fs@.len(),
            fields_view(fs@).len() == fs@.len(),
            forall|j: int| 0 <= j < fs@.len() ==> fields_view(fs@)[j] == #[trigger] fs@[j]@,
            sp_has_field(fields_view(fs@), name@) <==> sp_field_index(fields_view(fs@), name@)
                >= 0,
            sp_field_index(fields_view(fs@), name@) >= 0 ==> {
                let fi = sp_field_index(fields_view(fs@), name@);
                &&& fi < fs@.len()
                &&& fields_view(fs@)[fi].name == name@
                &&& forall|j: int| 0 <= j < fi ==> fields_view(fs@)[j].name != name@
            },
            forall|j: int| 0 <= j < i ==> fields_view(fs@)[j].name != name@,
        decreases fs@.len() - i,
    {
        if fs[i].name == *name {
            proof {
                assert(fields_view(fs@)[i as int] == fs@[i as int]@);
                assert(fields_view(fs@)[i as int].name == name@);
                assert(sp_has_field(fields_view(fs@), name@));
            }
            return Some(i);
        }
        proof {
            assert(fields_view(fs@)[i as int] == fs@[i as int]@);
        }
        i = i + 1;
    }
    None
}


/// `fields_view` distributes over `push`.
pub proof fn lemma_fields_view_push(fs: Seq<Field>, f: Field)
    ensures
        fields_view(fs.push(f)) == fields_view(fs).push(f@),
{
    lemma_fields_view(fs);
    lemma_fields_view(fs.push(f));
    assert(fields_view(fs.push(f)) =~= fields_view(fs).push(f@));
}

/// `fields_view` distributes over `remove`.
pub proof fn lemma_fields_view_remove(fs: Seq<Field>, i: int)
    requires
        0 <= i < fs.len(),
    ensures
        fields_view(fs.remove(i)) == fields_view(fs).remove(i),
{
    lemma_fields_view(fs);
    lemma_fields_view(fs.remove(i));
    fs.remove_ensures(i);
    fields_view(fs).remove_ensures(i);
    assert(fields_view(fs.remove(i)) =~= fields_view(fs).remove(i));
}

/// The merge of one matched field pair, as `sp_merge_field` describes it.
fn merge_field(fa: &Field, fb: &Field) -> (r: Field)
    ensures
        r@ == sp_merge_field(fa@, fb@),
    decreases *fa, 0int,
{
    let b_is_null = match &fb.data_type {
        DataType::Null => true,
        _ => false,
    };
    if b_is_null {
        return Field {
            name: fa.name.clone(),
            data_type: dt_clone(&fa.data_type),
            is_nullable: true,
            meta: crate::schema::meta_clone(&fa.meta),
        };
    }
    let a_is_null = match &fa.data_type {
        DataType::Null => true,
        _ => false,
    };
    if a_is_null {
        return Field {
            name: fa.name.clone(),
            data_type: dt_clone(&fb.data_type),
            is_nullable: true,
            meta: crate::schema::meta_clone(&fa.meta),
        };
    }
    Field {
        name: fa.name.clone(),
        data_type: coerce_data_type(&fa.data_type, &fb.data_type),
        is_nullable: fa.is_nullable || fb.is_nullable,
        meta: crate::schema::meta_clone(&fa.meta),
    }
}

/// The field-wise merge of two object field lists, as `sp_merge_fields`
/// describes it.
fn merge_fields(ls: &Vec<Field>, rs: &Vec<Field>) -> (out: Vec<Field>)
    ensures
        fields_view(out@) == sp_merge_fields(fields_view(ls@), fields_view(rs@)),
    decreases *ls, 1int,
{
    let mut out: Vec<Field> = Vec::new();
    let mut rest: Vec<Field> = crate::schema::fields_clone(rs);
    let ghost target = sp_merge_fields(fields_view(ls@), fields_view(rs@));
    let mut i: usize = 0;
    proof {
        lemma_fields_view(ls@);
        assert(fields_view(ls@).skip(0) =~= fields_view(ls@));
        assert(fields_view(out@) + sp_merge_fields(fields_view(ls@).skip(0), fields_view(rest@))
            =~= sp_merge_fields(fields_view(ls@), fields_view(rs@)));
    }
    while i < ls.len()
        invariant
            i <= ls@.len(),
            fields_view(ls@).len() == ls@.len(),
            forall|j: int| 0 <= j < ls@.len() ==> fields_view(ls@)[j] == #[trigger] ls@[j]@,
            target == sp_merge_fields(fields_view(ls@), fields_view(rs@)),
            fields_view(out@) + sp_merge_fields(
                fields_view(ls@).skip(i as int),
                fields_view(rest@),
            ) == target,
        decreases ls@.len() - i,
    {
        let la = &ls[i];
        let ghost tail = fields_view(ls@).skip(i as int);
        let ghost restv = fields_view(rest@);
        let ghost out_snap = out@;
        let ghost rest_snap = rest@;
        proof {
            assert(tail[0] == fields_view(ls@)[i as int]);
            assert(tail[0] == la@);
            assert(tail.drop_first() =~= fields_view(ls@).skip(i as int + 1));
        }
        match find_field(&rest, &la.name) {
            Some(fi) => {
                let fb = &rest[fi];
                let merged = merge_field(la, fb);
                proof {
                    lemma_fields_view(rest@);
                    assert(restv[fi as int] == rest@[fi as int]@);
                    assert(sp_field_index(restv, tail[0].name) == fi as int);
                    assert(sp_merge_fields(tail, restv) == seq![
                        sp_merge_field(tail[0], restv[fi as int]),
                    ] + sp_merge_fields(tail.drop_first(), restv.remove(fi as int)));
                }
                out.push(merged);
                let _removed = rest.remove(fi);
                proof {
                    lemma_fields_view_push(out_snap, merged);
                    lemma_fields_view_remove(rest_snap, fi as int);
                    assert(fields_view(out@) + sp_merge_fields(
                        tail.drop_first(),
                        fields_view(rest@),
                    ) =~= fields_view(out_snap) + sp_merge_fields(tail, restv));
                }
            },
            None => {
                let marked = Field {
                    name: la.name.clone(),
                    data_type: dt_clone(&la.data_type),
                    is_nullable: true,
                    meta: crate::schema::meta_clone(&la.meta),
                };
                proof {
                    assert(sp_field_index(restv, tail[0].name) == -1);
                    assert(sp_merge_fields(tail, restv) == seq![sp_nullable(tail[0])]
                        + sp_merge_fields(tail.drop_first(), restv));
                    assert(marked@ == sp_nullable(tail[0]));
                }
                out.push(marked);
                proof {
                    lemma_fields_view_push(out_snap, marked);
                    assert(fields_view(out@) + sp_merge_fields(tail.drop_first(), fields_view(rest@))
                        =~= fields_view(out_snap) + sp_merge_fields(tail, restv));
                }
            },
        }
        i = i + 1;
    }
    let ghost marks = sp_mark_nullable(fields_view(rest@));
    proof {
        assert(fields_view(ls@).skip(ls@.len() as int) =~= Seq::<FieldView>::empty());
        assert(sp_merge_fields(Seq::<FieldView>::empty(), fields_view(rest@)) == marks);
        lemma_fields_view(rest@);
    }
    let mut k: usize = 0;
    while k < rest.len()
        invariant
            k <= rest@.len(),
            marks == sp_mark_nullable(fields_view(rest@)),
            fields_view(rest@).len() == rest@.len(),
            marks.len() == rest@.len(),
            forall|j: int| 0 <= j < rest@.len() ==> fields_view(rest@)[j] == #[trigger] rest@[j]@,
            fields_view(out@) + marks.skip(k as int) == target,
        decreases rest@.len() - k,
    {
        let rb = &rest[k];
        let marked = Field {
            name: rb.name.clone(),
            data_type: dt_clone(&rb.data_type),
            is_nullable: true,
            meta: crate::schema::meta_clone(&rb.meta),
        };
        let ghost out_snap = out@;
        proof {
            assert(fields_view(rest@)[k as int] == rest@[k as int]@);
            assert(marks[k as int] == sp_nullable(fields_view(rest@)[k as int]));
            assert(marked@ == marks[k as int]);
            assert(marks.skip(k as int) =~= seq![marks[k as int]] + marks.skip(k as int + 1));
        }
        out.push(marked);
        proof {
            lemma_fields_view_push(out_snap, marked);
            assert(fields_view(out@) + marks.skip(k as int + 1) =~= fields_view(out_snap)
                + marks.skip(k as int));
        }
        k = k + 1;
    }
    proof {
        assert(marks.skip(rest@.len() as int) =~= Seq::<FieldView>::empty());
        assert(fields_view(out@) + Seq::<FieldView>::empty() =~= fields_view(out@));
    }
    out
}

/// The unification of two data types, as `sp_unify` describes it: a total
/// function that never fails, whatever the pairing.
pub fn coerce_data_type(a: &DataType, b: &DataType) -> (r: DataType)
    ensures
        r@ == sp_unify(a@, b@),
    decreases *a, 2int,
{
    if dt_eq(a, b) {
        return dt_clone(a);
    }
    match (a, b) {
        (DataType::Null, _) => dt_clone(b),
        (_, DataType::Null) => dt_clone(a),
        (DataType::Array(x), DataType::Array(y)) => DataType::Array(
            Box::new(coerce_data_type(x, y)),
        ),
        (DataType::Object(ls), DataType::Object(rs)) => DataType::Object(merge_fields(ls, rs)),
        (DataType::Float, DataType::Int) => DataType::Float,
        (DataType::Int, DataType::Float) => DataType::Float,
        (DataType::Int, DataType::Bool) => DataType::Int,
        (DataType::Bool, DataType::Int) => DataType::Int,
        _ => DataType::String,
    }
}

/// The view of a list of data types, type by type.
pub open spec fn types_view(ts: Seq<DataType>) -> Seq<TypeView> {
    ts.map_values(|d: DataType| d@)
}

/// The left-to-right unification of a whole list of types, as
/// `sp_unify_all` describes it; the empty list unifies to `Null`.
pub fn coerce_data_types(types: &Vec<DataType>) -> (r: DataType)
    ensures
        r@ == sp_unify_all(types_view(types@)),
{
    let mut acc = DataType::Null;
    let mut i: usize = 0;
    proof {
        assert(types_view(types@).take(0) =~= Seq::<TypeView>::empty());
    }
    while i < types.len()
        invariant
            i <= types@.len(),
            acc@ == sp_unify_all(types_view(types@).take(i as int)),
        decreases types@.len() - i,
    {
        let t = &types[i];
        let next = coerce_data_type(&acc, t);
        proof {
            let tv = types_view(types@);
            assert(tv[i as int] == types@[i as int]@);
            assert(tv.take(i as int + 1).drop_last() =~= tv.take(i as int));
            assert(tv.take(i as int + 1).last() == tv[i as int]);
        }
        acc = next;
        i = i + 1;
    }
    proof {
        assert(types_view(types@).take(types@.len() as int) =~= types_view(types@));
    }
    acc
}

} // verus!
