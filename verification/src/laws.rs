use crate::coerce::lemma_sp_coerce_elems_some;
use crate::coerce::sp_coerce;
use crate::coerce::sp_coerce_entry;
use crate::coerce::sp_coerce_fields;
use crate::coerce::sp_coercible;
use crate::coerce::sp_coercible_entry;
use crate::coerce::sp_extra_entries;
use crate::infer::sp_dedup;
use crate::infer::lemma_sp_infer_elems;
use crate::infer::lemma_sp_infer_fields;
use crate::infer::sp_infer;
use crate::infer::sp_infer_field;
use crate::infer::sp_infer_fields;
use crate::infer::sp_infer_elems;
use crate::schema::field_wf;
use crate::schema::type_wf;
use crate::schema::FieldView;
use crate::schema::TypeView;
use crate::unify::sp_field_index;
use crate::unify::lemma_sp_field_index;
use crate::unify::sp_has_field;
use crate::unify::sp_merge_field;
use crate::unify::sp_mark_nullable;
use crate::unify::sp_merge_fields;
use crate::unify::sp_nullable;
use crate::unify::sp_unify;
use crate::value::distinct_keys;
use crate::value::has_key;
use crate::value::key_index;
use crate::value::lemma_key_index;
use crate::value::value_wf;
use crate::value::ValueView;
use vstd::prelude::*;

verus! {

/// Whether a value is type-coherent: within every array, all elements
/// infer to one and the same type. Mixed-type arrays widen their
/// elements during coercion, so only coherent values can round-trip
/// unchanged.
pub open spec fn sp_uniform(v: ValueView) -> bool
    decreases v, 1int,
{
    match v {
        ValueView::Array(vs) => (forall|i: int|
            0 <= i < vs.len() ==> sp_infer(#[trigger] vs[i]) == sp_infer(vs[0])) && (forall|i: int|
            0 <= i < vs.len() ==> sp_uniform(#[trigger] vs[i])),
        ValueView::Object(es) => forall|i: int| 0 <= i < es.len() ==> sp_uniform_entry(
            #[trigger] es[i],
        ),
        _ => true,
    }
}

/// Type coherence of one object entry's value.
pub open spec fn sp_uniform_entry(e: (Seq<char>, ValueView)) -> bool
    decreases e, 2int,
{
    sp_uniform(e.1)
}

/// Deduplicating a constant, non-empty type list leaves one element.
proof fn lemma_dedup_constant(ts: Seq<TypeView>, t0: TypeView)
    requires
        ts.len() > 0,
        forall|i: int| 0 <= i < ts.len() ==> #[trigger] ts[i] == t0,
    ensures
        sp_dedup(ts) == seq![t0],
    decreases ts.len(),
{
    if ts.len() == 1 {
        assert(sp_dedup(ts.drop_last()) == Seq::<TypeView>::empty());
        assert(sp_dedup(ts) =~= seq![t0]);
    } else {
        assert(forall|i: int|
            0 <= i < ts.drop_last().len() ==> #[trigger] ts.drop_last()[i] == t0);
        lemma_dedup_constant(ts.drop_last(), t0);
        assert(seq![t0][0] == t0);
        assert(seq![t0].contains(ts.last()));
    }
}

/// The first index of a key within an object with distinct keys is the
/// key's own position.
proof fn lemma_key_index_distinct(es: Seq<(Seq<char>, ValueView)>, j: int)
    requires
        distinct_keys(es),
        0 <= j < es.len(),
    ensures
        key_index(es, es[j].0) == j,
{
    lemma_key_index(es, es[j].0);
    assert(has_key(es, es[j].0));
    let ki = key_index(es, es[j].0);
    if ki < j {
        assert(es[ki].0 == es[j].0);
    }
    if ki > j {
        assert(es[j].0 != es[j].0) by {
            assert(forall|l: int| 0 <= l < ki ==> es[l].0 != es[j].0);
        }
    }
}

/// Filtering with an everywhere-false predicate leaves nothing.
proof fn lemma_filter_none(
    s: Seq<(Seq<char>, ValueView)>,
    pred: spec_fn((Seq<char>, ValueView)) -> bool,
)
    requires
        forall|i: int| 0 <= i < s.len() ==> !pred(#[trigger] s[i]),
    ensures
        s.filter(pred) == Seq::<(Seq<char>, ValueView)>::empty(),
    decreases s.len(),
{
    reveal_with_fuel(Seq::<_>::filter, 2);
    if s.len() > 0 {
        assert(forall|i: int| 0 <= i < s.drop_last().len() ==> !pred(#[trigger] s.drop_last()[i]));
        lemma_filter_none(s.drop_last(), pred);
        assert(!pred(s.last()));
    }
}

/// Coercing a well-formed, type-coherent entry's value onto its own
/// inferred type leaves it unchanged.
proof fn lemma_coerce_infer_identity_entry(e: (Seq<char>, ValueView))
    requires
        value_wf(e.1),
        sp_uniform_entry(e),
    ensures
        sp_coercible_entry(e, sp_infer(e.1), true),
        sp_coerce_entry(e, sp_infer(e.1), true) == Some(e.1),
    decreases e, 0int, 0int,
{
    lemma_coerce_infer_identity(e.1);
}

/// Coercing the suffix of an object's entries onto the matching suffix
/// of its own inferred fields hands the entries back unchanged.
proof fn lemma_coerce_fields_identity(es: Seq<(Seq<char>, ValueView)>, k: int)
    requires
        value_wf(ValueView::Object(es)),
        sp_uniform(ValueView::Object(es)),
        0 <= k <= es.len(),
    ensures
        sp_coerce_fields(es, sp_infer_fields(es).skip(k), true) == Some(es.skip(k)),
    decreases ValueView::Object(es), 2int, es.len() - k,
{
    lemma_sp_infer_fields(es);
    let fsv = sp_infer_fields(es);
    if k == es.len() {
        assert(fsv.skip(k) =~= Seq::<FieldView>::empty());
        assert(es.skip(k) =~= Seq::<(Seq<char>, ValueView)>::empty());
    } else {
        let tail = fsv.skip(k);
        assert(tail[0] == fsv[k]);
        assert(fsv[k] == sp_infer_field(es[k]));
        assert(tail[0].name == es[k].0);
        lemma_key_index_distinct(es, k);
        assert(key_index(es, tail[0].name) == k);
        assert(sp_uniform_entry(es[k]));
        assert(value_wf(es[k].1));
        lemma_coerce_infer_identity_entry(es[k]);
        assert(sp_coerce_entry(es[k], tail[0].data_type, true) == Some(es[k].1));
        assert(tail.drop_first() =~= fsv.skip(k + 1));
        lemma_coerce_fields_identity(es, k + 1);
        assert(seq![(es[k].0, es[k].1)] + es.skip(k + 1) =~= es.skip(k));
        assert((es[k].0, es[k].1) == es[k]);
    }
}

/// Coercing a value onto its own inferred type leaves it unchanged, for
/// every well-formed, type-coherent value. An array with elements of
/// differing inferred types is out: its elements widen, as in
/// `[1, 1.5]`, whose integer becomes a float.
pub proof fn lemma_coerce_infer_identity(v: ValueView)
    requires
        value_wf(v),
        sp_uniform(v),
    ensures
        sp_coercible(v, sp_infer(v), true),
        sp_coerce(v, sp_infer(v), true) == Some(v),
    decreases v, 3int, 0int,
{
    match v {
        ValueView::Array(vs) => {
            lemma_sp_infer_elems(vs);
            let ts = sp_infer_elems(vs);
            if vs.len() == 0 {
                assert(sp_dedup(ts) =~= Seq::<TypeView>::empty());
                assert(sp_infer(v) == TypeView::Array(Box::new(TypeView::Null)));
                assert(crate::coerce::sp_coerce_elems(vs, TypeView::Null, true) == Some(
                    Seq::<ValueView>::empty(),
                ));
                assert(vs =~= Seq::<ValueView>::empty());
            } else {
                let t0 = sp_infer(vs[0]);
                assert(forall|i: int| 0 <= i < ts.len() ==> #[trigger] ts[i] == t0);
                lemma_dedup_constant(ts, t0);
                assert(crate::unify::sp_unify_all(seq![t0]) == sp_unify(
                    crate::unify::sp_unify_all(seq![t0].drop_last()),
                    t0,
                ));
                assert(seq![t0].drop_last() =~= Seq::<TypeView>::empty());
                assert(sp_unify(TypeView::Null, t0) == t0);
                assert(sp_infer(v) == TypeView::Array(Box::new(t0)));
                assert forall|i: int| 0 <= i < vs.len() implies sp_coercible(
                    #[trigger] vs[i],
                    t0,
                    true,
                ) && sp_coerce(vs[i], t0, true) == Some(vs[i]) by {
                    assert(value_wf(vs[i]));
                    assert(sp_uniform(vs[i]));
                    lemma_coerce_infer_identity(vs[i]);
                }
                lemma_sp_coerce_elems_some(vs, t0, true, vs);
                assert(sp_coerce(v, sp_infer(v), true) == Some(ValueView::Array(vs)));
            }
        },
        ValueView::Object(es) => {
            lemma_sp_infer_fields(es);
            let fsv = sp_infer_fields(es);
            assert(sp_infer(v) == TypeView::Object(fsv));
            assert forall|j: int|
                0 <= j < fsv.len() implies {
                    let i = key_index(es, (#[trigger] fsv[j]).name);
                    0 <= i < es.len() ==> sp_coercible_entry(es[i], fsv[j].data_type, true)
                } by {
                assert(fsv[j] == sp_infer_field(es[j]));
                lemma_key_index_distinct(es, j);
                assert(sp_uniform_entry(es[j]));
                assert(value_wf(es[j].1));
                lemma_coerce_infer_identity_entry(es[j]);
            }
            assert(crate::coerce::sp_coercible_fields(es, fsv, true));
            assert(fsv.skip(0) =~= fsv);
            lemma_coerce_fields_identity(es, 0);
            assert(es.skip(0) =~= es);
            assert(sp_coerce_fields(es, fsv, true) == Some(es));
            let pred = |e: (Seq<char>, ValueView)| !sp_has_field(fsv, e.0);
            assert forall|i: int| 0 <= i < es.len() implies !pred(#[trigger] es[i]) by {
                assert(fsv[i] == sp_infer_field(es[i]));
                assert(fsv[i].name == es[i].0);
                assert(sp_has_field(fsv, es[i].0));
            }
            lemma_filter_none(es, pred);
            assert(sp_extra_entries(es, fsv) == Seq::<(Seq<char>, ValueView)>::empty());
            assert(es + Seq::<(Seq<char>, ValueView)>::empty() =~= es);
            assert(sp_coerce(v, sp_infer(v), true) == Some(ValueView::Object(es)));
        },
        _ => {
        },
    }
}

/// Sameness of two types up to object field order: scalars and arrays
/// agree exactly; objects carry the same field names, and matched
/// fields agree on nullability and are themselves the same up to order.
pub open spec fn sp_similar(a: TypeView, b: TypeView) -> bool
    decreases a, 1int,
{
    match (a, b) {
        (TypeView::Array(x), TypeView::Array(y)) => sp_similar(*x, *y),
        (TypeView::Object(f1), TypeView::Object(f2)) => {
            &&& crate::schema::distinct_field_names(f1)
            &&& crate::schema::distinct_field_names(f2)
            &&& forall|j: int| 0 <= j < f2.len() ==> sp_has_field(f1, (#[trigger] f2[j]).name)
            &&& forall|i: int|
                0 <= i < f1.len() ==> sp_fields_match(#[trigger] f1[i], f2)
        },
        _ => a == b,
    }
}

/// Whether a field has a counterpart of the same name and nullability,
/// similar in type, within another field list.
pub open spec fn sp_fields_match(f: FieldView, f2: Seq<FieldView>) -> bool
    decreases f, 2int,
{
    let j = sp_field_index(f2, f.name);
    &&& 0 <= j < f2.len()
    &&& f.is_nullable == f2[j].is_nullable
    &&& sp_similar(f.data_type, f2[j].data_type)
}

/// Every type is similar to itself, wherever its object field names are
/// unique.
pub proof fn lemma_similar_refl(t: TypeView)
    requires
        type_wf(t),
    ensures
        sp_similar(t, t),
    decreases t, 1int,
{
    match t {
        TypeView::Array(et) => {
            lemma_similar_refl(*et);
        },
        TypeView::Object(fs) => {
            assert forall|j: int| 0 <= j < fs.len() implies sp_has_field(
                fs,
                (#[trigger] fs[j]).name,
            ) by {}
            assert forall|i: int| 0 <= i < fs.len() implies sp_fields_match(
                #[trigger] fs[i],
                fs,
            ) by {
                lemma_sp_field_index(fs, fs[i].name);
                let j = sp_field_index(fs, fs[i].name);
                assert(sp_has_field(fs, fs[i].name));
                assert(0 <= j < fs.len() && fs[j].name == fs[i].name);
                assert(j == i) by {
                    if j != i {
                        assert(fs[j].name != fs[i].name);
                    }
                }
                lemma_similar_refl_field(fs[i]);
            }
        },
        _ => {
        },
    }
}

/// Every field's type is similar to itself, wherever its names are
/// unique.
proof fn lemma_similar_refl_field(f: FieldView)
    requires
        field_wf(f),
    ensures
        sp_similar(f.data_type, f.data_type),
    decreases f, 2int,
{
    lemma_similar_refl(f.data_type);
}

/// The first field index under unique names is the only index with that
/// name.
proof fn lemma_field_index_unique(fs: Seq<FieldView>, i: int)
    requires
        crate::schema::distinct_field_names(fs),
        0 <= i < fs.len(),
    ensures
        sp_field_index(fs, fs[i].name) == i,
{
    lemma_sp_field_index(fs, fs[i].name);
    assert(sp_has_field(fs, fs[i].name));
    let j = sp_field_index(fs, fs[i].name);
    if j != i {
        assert(fs[j].name != fs[i].name);
    }
}

/// Removing one field from a list with unique names keeps the names
/// unique, keeps every other field findable with the same content, and
/// drops the removed name.
proof fn lemma_remove_field(rs: Seq<FieldView>, i: int, n: Seq<char>)
    requires
        crate::schema::distinct_field_names(rs),
        0 <= i < rs.len(),
    ensures
        crate::schema::distinct_field_names(rs.remove(i)),
        n != rs[i].name ==> (sp_has_field(rs.remove(i), n) <==> sp_has_field(rs, n)),
        n != rs[i].name && sp_has_field(rs, n) ==> rs.remove(i)[sp_field_index(rs.remove(i), n)]
            == rs[sp_field_index(rs, n)],
        !sp_has_field(rs.remove(i), rs[i].name),
{
    let out = rs.remove(i);
    rs.remove_ensures(i);
    assert forall|a: int, b: int| 0 <= a < b < out.len() implies out[a].name != out[b].name by {
        assert(out[a] == if a < i {
            rs[a]
        } else {
            rs[a + 1]
        });
        assert(out[b] == if b < i {
            rs[b]
        } else {
            rs[b + 1]
        });
    }
    lemma_sp_field_index(rs, n);
    lemma_sp_field_index(out, n);
    if n != rs[i].name {
        if sp_has_field(rs, n) {
            let j = sp_field_index(rs, n);
            assert(rs[j].name == n);
            assert(j != i);
            if j < i {
                assert(out[j] == rs[j]);
            } else {
                assert(out[j - 1] == rs[j]);
            }
            assert(sp_has_field(out, n));
            let j2 = sp_field_index(out, n);
            assert(out[j2].name == n);
            assert(out[j2] == if j2 < i {
                rs[j2]
            } else {
                rs[j2 + 1]
            });
            assert(out[j2] == rs[j]) by {
                let orig = if j2 < i {
                    j2
                } else {
                    j2 + 1
                };
                assert(rs[orig].name == n);
                if orig != j {
                    assert(rs[orig].name != rs[j].name);
                }
            }
        }
        if sp_has_field(out, n) {
            let j2 = sp_field_index(out, n);
            assert(out[j2].name == n);
            assert(out[j2] == if j2 < i {
                rs[j2]
            } else {
                rs[j2 + 1]
            });
            assert(sp_has_field(rs, n));
        }
    }
    if sp_has_field(out, rs[i].name) {
        let j2 = sp_field_index(out, rs[i].name);
        assert(out[j2].name == rs[i].name);
        let orig = if j2 < i {
            j2
        } else {
            j2 + 1
        };
        assert(out[j2] == rs[orig]);
        assert(orig != i);
        assert(rs[orig].name != rs[i].name);
    }
}

/// The field a list carries under a name.
pub open spec fn sp_field_of(fs: Seq<FieldView>, n: Seq<char>) -> FieldView {
    fs[sp_field_index(fs, n)]
}

/// What a field-wise merge carries under one name: a field present on
/// both sides merges, a field of one side alone is marked nullable, and
/// no other names appear.
proof fn lemma_merge_at(ls: Seq<FieldView>, rs: Seq<FieldView>, n: Seq<char>)
    requires
        crate::schema::distinct_field_names(ls),
        crate::schema::distinct_field_names(rs),
    ensures
        sp_has_field(sp_merge_fields(ls, rs), n) <==> (sp_has_field(ls, n) || sp_has_field(
            rs,
            n,
        )),
        sp_has_field(ls, n) && sp_has_field(rs, n) ==> sp_field_of(sp_merge_fields(ls, rs), n)
            == sp_merge_field(sp_field_of(ls, n), sp_field_of(rs, n)),
        sp_has_field(ls, n) && !sp_has_field(rs, n) ==> sp_field_of(sp_merge_fields(ls, rs), n)
            == sp_nullable(sp_field_of(ls, n)),
        !sp_has_field(ls, n) && sp_has_field(rs, n) ==> sp_field_of(sp_merge_fields(ls, rs), n)
            == sp_nullable(sp_field_of(rs, n)),
    decreases ls.len(),
{
    lemma_sp_field_index(ls, n);
    lemma_sp_field_index(rs, n);
    let m = sp_merge_fields(ls, rs);
    lemma_sp_field_index(m, n);
    if ls.len() == 0 {
        let marked = sp_mark_nullable(rs);
        assert(marked.len() == rs.len());
        assert(forall|j: int| 0 <= j < rs.len() ==> (#[trigger] marked[j]) == sp_nullable(rs[j]));
        lemma_mark_nullable_index(rs, n);
    } else {
        let h = ls[0];
        let fi = sp_field_index(rs, h.name);
        lemma_sp_field_index(rs, h.name);
        let matched = fi >= 0;
        let head = if matched {
            sp_merge_field(h, rs[fi])
        } else {
            sp_nullable(h)
        };
        let rest_rs = if matched {
            rs.remove(fi)
        } else {
            rs
        };
        let m2 = sp_merge_fields(ls.drop_first(), rest_rs);
        assert(m == seq![head] + m2);
        assert(head.name == h.name);
        assert(forall|a: int, b: int|
            0 <= a < b < ls.drop_first().len() ==> (#[trigger] ls.drop_first()[a]).name != (
            #[trigger] ls.drop_first()[b]).name) by {
            assert(forall|a: int|
                0 <= a < ls.drop_first().len() ==> (#[trigger] ls.drop_first()[a]) == ls[a + 1]);
        }
        if matched {
            lemma_remove_field(rs, fi, n);
        }
        lemma_merge_at(ls.drop_first(), rest_rs, n);
        lemma_sp_field_index(m2, n);
        lemma_sp_field_index(ls.drop_first(), n);
        lemma_sp_field_index(rest_rs, n);
        if n == h.name {
            assert(m[0] == head);
            assert(sp_field_index(m, n) == 0);
            assert(sp_has_field(m, n));
            assert(sp_field_of(m, n) == head);
            assert(sp_field_index(ls, n) == 0);
            assert(sp_field_of(ls, n) == h);
            if matched {
                assert(rs[fi].name == n);
                assert(sp_field_of(rs, n) == rs[fi]);
                assert(sp_has_field(rs, n));
            } else {
                assert(!sp_has_field(rs, n));
            }
        } else {
            assert(ls[0].name != n);
            assert(forall|a: int|
                0 <= a < ls.drop_first().len() ==> (#[trigger] ls.drop_first()[a]) == ls[a + 1]);
            assert(sp_has_field(ls, n) <==> sp_has_field(ls.drop_first(), n)) by {
                if sp_has_field(ls, n) {
                    let w = choose|w: int| 0 <= w < ls.len() && ls[w].name == n;
                    assert(w > 0);
                    assert(ls.drop_first()[w - 1].name == n);
                }
                if sp_has_field(ls.drop_first(), n) {
                    let w = choose|w: int|
                        0 <= w < ls.drop_first().len() && ls.drop_first()[w].name == n;
                    assert(ls[w + 1].name == n);
                }
            }
            assert(sp_has_field(ls, n) ==> sp_field_of(ls, n) == sp_field_of(
                ls.drop_first(),
                n,
            )) by {
                if sp_has_field(ls, n) {
                    let j = sp_field_index(ls, n);
                    assert(j > 0);
                    assert(sp_field_index(ls.drop_first(), n) == j - 1) by {
                        let d = sp_field_index(ls.drop_first(), n);
                        assert(ls.drop_first()[j - 1].name == n);
                        if d < j - 1 {
                            assert(ls[d + 1].name == n);
                        }
                        if d > j - 1 {
                            assert(ls.drop_first()[j - 1].name != n);
                        }
                    }
                }
            }
            assert(head.name != n);
            assert(sp_has_field(m, n) <==> sp_has_field(m2, n)) by {
                if sp_has_field(m, n) {
                    let w = choose|w: int| 0 <= w < m.len() && m[w].name == n;
                    assert(w > 0);
                    assert(m2[w - 1] == m[w]);
                }
                if sp_has_field(m2, n) {
                    let w = choose|w: int| 0 <= w < m2.len() && m2[w].name == n;
                    assert(m[w + 1] == m2[w]);
                    assert(m[w + 1].name == n);
                }
            }
            assert(sp_has_field(m, n) ==> sp_field_of(m, n) == sp_field_of(m2, n)) by {
                if sp_has_field(m, n) {
                    let j = sp_field_index(m, n);
                    assert(m[j].name == n);
                    assert(j > 0);
                    assert(m2[j - 1] == m[j]);
                    assert(sp_field_index(m2, n) == j - 1) by {
                        let d = sp_field_index(m2, n);
                        assert(m2[j - 1].name == n);
                        if d < j - 1 {
                            assert(m[d + 1] == m2[d]);
                            assert(m[d + 1].name == n);
                        }
                        if d > j - 1 {
                            assert(m2[j - 1].name != n);
                        }
                    }
                }
            }
            if matched {
                assert(rs[fi].name == h.name);
                assert(rs[fi].name != n);
            }
        }
    }
}

/// Marking every field nullable keeps names and positions.
proof fn lemma_mark_nullable_index(rs: Seq<FieldView>, n: Seq<char>)
    ensures
        sp_has_field(sp_mark_nullable(rs), n) <==> sp_has_field(rs, n),
        sp_has_field(rs, n) ==> sp_field_index(sp_mark_nullable(rs), n) == sp_field_index(rs, n)
            && sp_field_of(sp_mark_nullable(rs), n) == sp_nullable(sp_field_of(rs, n)),
    decreases rs.len(),
{
    let marked = sp_mark_nullable(rs);
    assert(marked.len() == rs.len());
    assert(forall|j: int| 0 <= j < rs.len() ==> (#[trigger] marked[j]) == sp_nullable(rs[j]));
    lemma_sp_field_index(rs, n);
    lemma_sp_field_index(marked, n);
    if sp_has_field(rs, n) {
        let j = sp_field_index(rs, n);
        assert(marked[j].name == n);
        assert(sp_has_field(marked, n));
        let j2 = sp_field_index(marked, n);
        assert(j2 == j) by {
            if j2 < j {
                assert(rs[j2].name == marked[j2].name);
            }
            if j2 > j {
                assert(marked[j].name != n);
            }
        }
    }
    if sp_has_field(marked, n) {
        let j2 = sp_field_index(marked, n);
        assert(rs[j2].name == marked[j2].name);
        assert(sp_has_field(rs, n));
    }
}

/// A field-wise merge of two lists with unique names has unique names.
proof fn lemma_merge_distinct(ls: Seq<FieldView>, rs: Seq<FieldView>)
    requires
        crate::schema::distinct_field_names(ls),
        crate::schema::distinct_field_names(rs),
    ensures
        crate::schema::distinct_field_names(sp_merge_fields(ls, rs)),
    decreases ls.len(),
{
    let m = sp_merge_fields(ls, rs);
    if ls.len() == 0 {
        let marked = sp_mark_nullable(rs);
        assert(forall|j: int| 0 <= j < rs.len() ==> (#[trigger] marked[j]) == sp_nullable(rs[j]));
        assert forall|a: int, b: int| 0 <= a < b < m.len() implies m[a].name != m[b].name by {
            assert(m[a] == sp_nullable(rs[a]));
            assert(m[b] == sp_nullable(rs[b]));
        }
    } else {
        let h = ls[0];
        let fi = sp_field_index(rs, h.name);
        lemma_sp_field_index(rs, h.name);
        let matched = fi >= 0;
        let head = if matched {
            sp_merge_field(h, rs[fi])
        } else {
            sp_nullable(h)
        };
        let rest_rs = if matched {
            rs.remove(fi)
        } else {
            rs
        };
        let m2 = sp_merge_fields(ls.drop_first(), rest_rs);
        assert(m == seq![head] + m2);
        assert(forall|a: int|
            0 <= a < ls.drop_first().len() ==> (#[trigger] ls.drop_first()[a]) == ls[a + 1]);
        assert(forall|a: int, b: int|
            0 <= a < b < ls.drop_first().len() ==> (#[trigger] ls.drop_first()[a]).name != (
            #[trigger] ls.drop_first()[b]).name);
        if matched {
            lemma_remove_field(rs, fi, h.name);
        }
        lemma_merge_distinct(ls.drop_first(), rest_rs);
        lemma_merge_at(ls.drop_first(), rest_rs, h.name);
        assert(!sp_has_field(ls.drop_first(), h.name)) by {
            if sp_has_field(ls.drop_first(), h.name) {
                let w = choose|w: int|
                    0 <= w < ls.drop_first().len() && ls.drop_first()[w].name == h.name;
                assert(ls[w + 1].name == h.name);
            }
        }
        assert(!sp_has_field(rest_rs, h.name)) by {
            if !matched {
                assert(!sp_has_field(rs, h.name)) by {
                    lemma_sp_field_index(rs, h.name);
                }
            }
        }
        assert(!sp_has_field(m2, h.name));
        assert forall|a: int, b: int| 0 <= a < b < m.len() implies m[a].name != m[b].name by {
            if a == 0 {
                assert(m[b] == m2[b - 1]);
                if m[b].name == h.name {
                    assert(sp_has_field(m2, h.name));
                }
            } else {
                assert(m[a] == m2[a - 1]);
                assert(m[b] == m2[b - 1]);
            }
        }
    }
}

/// Sameness up to field order is symmetric.
pub proof fn lemma_similar_sym(a: TypeView, b: TypeView)
    requires
        sp_similar(a, b),
    ensures
        sp_similar(b, a),
    decreases a, 1int,
{
    match (a, b) {
        (TypeView::Array(x), TypeView::Array(y)) => {
            lemma_similar_sym(*x, *y);
        },
        (TypeView::Object(f1), TypeView::Object(f2)) => {
            assert forall|j: int| 0 <= j < f1.len() implies sp_has_field(
                f2,
                (#[trigger] f1[j]).name,
            ) by {
                assert(sp_fields_match(f1[j], f2));
                let i = sp_field_index(f2, f1[j].name);
                lemma_sp_field_index(f2, f1[j].name);
            }
            assert forall|j: int| 0 <= j < f2.len() implies sp_fields_match(
                #[trigger] f2[j],
                f1,
            ) by {
                assert(sp_has_field(f1, f2[j].name));
                lemma_sp_field_index(f1, f2[j].name);
                let i = sp_field_index(f1, f2[j].name);
                assert(0 <= i < f1.len() && f1[i].name == f2[j].name);
                assert(sp_fields_match(f1[i], f2));
                let j2 = sp_field_index(f2, f1[i].name);
                lemma_sp_field_index(f2, f1[i].name);
                assert(f2[j2].name == f2[j].name);
                assert(j2 == j) by {
                    if j2 != j {
                        assert(f2[j2].name != f2[j].name);
                    }
                }
                lemma_similar_sym_field(f1[i], f2[j]);
            }
        },
        _ => {
        },
    }
}

/// Sameness of one matched field pair's types is symmetric.
proof fn lemma_similar_sym_field(f: FieldView, g: FieldView)
    requires
        sp_similar(f.data_type, g.data_type),
    ensures
        sp_similar(g.data_type, f.data_type),
    decreases f, 0int,
{
    lemma_similar_sym(f.data_type, g.data_type);
}

/// The merge of one matched field pair is the same either way around:
/// the same name, the same nullability, and types that are the same up
/// to field order.
proof fn lemma_merge_field_sym(f: FieldView, g: FieldView)
    requires
        field_wf(f),
        field_wf(g),
        f.name == g.name,
    ensures
        sp_merge_field(f, g).name == f.name,
        sp_merge_field(g, f).name == f.name,
        sp_merge_field(f, g).is_nullable == sp_merge_field(g, f).is_nullable,
        sp_similar(sp_merge_field(f, g).data_type, sp_merge_field(g, f).data_type),
    decreases f, 0int,
{
    if g.data_type is Null {
        if f.data_type is Null {
        } else {
            lemma_similar_refl(f.data_type);
        }
    } else if f.data_type is Null {
        lemma_similar_refl(g.data_type);
    } else {
        lemma_unify_commutes(f.data_type, g.data_type);
    }
}

/// Unification is commutative up to object field order, for every
/// well-formed pair: the two orders agree on every scalar and array,
/// and on objects they carry the same fields with the same nullability
/// and types that are themselves the same up to order — only the order
/// of newly-appearing fields differs.
pub proof fn lemma_unify_commutes(a: TypeView, b: TypeView)
    requires
        type_wf(a),
        type_wf(b),
    ensures
        sp_similar(sp_unify(a, b), sp_unify(b, a)),
    decreases a, 1int,
{
    if a == b {
        lemma_similar_refl(a);
    } else if a is Null {
        lemma_similar_refl(b);
    } else if b is Null {
        lemma_similar_refl(a);
    } else {
        match (a, b) {
            (TypeView::Array(x), TypeView::Array(y)) => {
                lemma_unify_commutes(*x, *y);
            },
            (TypeView::Object(ls), TypeView::Object(rs)) => {
                let m1 = sp_merge_fields(ls, rs);
                let m2 = sp_merge_fields(rs, ls);
                lemma_merge_distinct(ls, rs);
                lemma_merge_distinct(rs, ls);
                assert forall|j: int| 0 <= j < m2.len() implies sp_has_field(
                    m1,
                    (#[trigger] m2[j]).name,
                ) by {
                    let n = m2[j].name;
                    assert(sp_has_field(m2, n));
                    lemma_merge_at(rs, ls, n);
                    lemma_merge_at(ls, rs, n);
                }
                assert forall|i: int| 0 <= i < m1.len() implies sp_fields_match(
                    #[trigger] m1[i],
                    m2,
                ) by {
                    let n = m1[i].name;
                    assert(sp_has_field(m1, n));
                    lemma_field_index_unique(m1, i);
                    assert(sp_field_of(m1, n) == m1[i]);
                    lemma_merge_at(ls, rs, n);
                    lemma_merge_at(rs, ls, n);
                    assert(sp_has_field(m2, n));
                    lemma_sp_field_index(m2, n);
                    let j = sp_field_index(m2, n);
                    assert(sp_field_of(m2, n) == m2[j]);
                    lemma_sp_field_index(ls, n);
                    lemma_sp_field_index(rs, n);
                    if sp_has_field(ls, n) && sp_has_field(rs, n) {
                        let fl = sp_field_of(ls, n);
                        let fr = sp_field_of(rs, n);
                        assert(field_wf(fl));
                        assert(field_wf(fr));
                        assert(fl.name == n && fr.name == n);
                        lemma_merge_field_sym_at(ls, sp_field_index(ls, n), fr);
                    } else if sp_has_field(ls, n) {
                        let fl = sp_field_of(ls, n);
                        assert(m1[i] == sp_nullable(fl));
                        assert(m2[j] == sp_nullable(fl));
                        assert(field_wf(fl));
                        lemma_similar_refl_entry(ls, sp_field_index(ls, n));
                    } else {
                        let fr = sp_field_of(rs, n);
                        assert(m1[i] == sp_nullable(fr));
                        assert(m2[j] == sp_nullable(fr));
                        assert(field_wf(fr));
                        lemma_similar_refl_entry(rs, sp_field_index(rs, n));
                    }
                }
            },
            _ => {
                assert(sp_unify(a, b) == TypeView::String || sp_unify(a, b) == TypeView::Float
                    || sp_unify(a, b) == TypeView::Int);
            },
        }
    }
}

/// The pairwise merge of a list's field with a matching field is the
/// same either way around.
proof fn lemma_merge_field_sym_at(ls: Seq<FieldView>, i: int, g: FieldView)
    requires
        0 <= i < ls.len(),
        field_wf(ls[i]),
        field_wf(g),
        ls[i].name == g.name,
    ensures
        sp_merge_field(ls[i], g).name == ls[i].name,
        sp_merge_field(g, ls[i]).name == ls[i].name,
        sp_merge_field(ls[i], g).is_nullable == sp_merge_field(g, ls[i]).is_nullable,
        sp_similar(sp_merge_field(ls[i], g).data_type, sp_merge_field(g, ls[i]).data_type),
    decreases ls, 0int,
{
    lemma_merge_field_sym(ls[i], g);
}

/// A list's field type is similar to itself, names unique throughout.
proof fn lemma_similar_refl_entry(ls: Seq<FieldView>, i: int)
    requires
        0 <= i < ls.len(),
        field_wf(ls[i]),
    ensures
        sp_similar(ls[i].data_type, ls[i].data_type),
    decreases ls, 0int,
{
    lemma_similar_refl_field(ls[i]);
}

/// The nullable flag of the first field with a given name.
pub open spec fn sp_field_nullable(fs: Seq<FieldView>, name: Seq<char>) -> bool {
    let i = sp_field_index(fs, name);
    0 <= i < fs.len() && fs[i].is_nullable
}

/// The first field index of a cons cell whose head has another name.
proof fn lemma_field_index_cons(x: FieldView, s: Seq<FieldView>, name: Seq<char>)
    requires
        x.name != name,
    ensures
        sp_field_index(seq![x] + s, name) == if sp_field_index(s, name) < 0 {
            -1
        } else {
            1 + sp_field_index(s, name)
        },
{
    let c = seq![x] + s;
    assert(c[0] == x);
    assert(c.len() > 0);
    assert(c.drop_first() =~= s);
}

/// A nullable field of the left operand stays present and nullable in a
/// field-wise merge.
proof fn lemma_merge_keeps_nullable(ls: Seq<FieldView>, rs: Seq<FieldView>, name: Seq<char>)
    requires
        sp_field_nullable(ls, name),
    ensures
        sp_field_nullable(sp_merge_fields(ls, rs), name),
    decreases ls.len(),
{
    lemma_sp_field_index(ls, name);
    let li = sp_field_index(ls, name);
    assert(ls.len() > 0);
    let fi = sp_field_index(rs, ls[0].name);
    let head = if fi < 0 {
        sp_nullable(ls[0])
    } else {
        sp_merge_field(ls[0], rs[fi])
    };
    let rest_rs = if fi < 0 {
        rs
    } else {
        rs.remove(fi)
    };
    let merged = sp_merge_fields(ls, rs);
    assert(merged == seq![head] + sp_merge_fields(ls.drop_first(), rest_rs));
    assert(head.name == ls[0].name);
    if li == 0 {
        assert(ls[0].is_nullable);
        assert(head.is_nullable);
        assert(merged[0] == head);
        assert(sp_field_index(merged, name) == 0);
    } else {
        assert(ls[0].name != name);
        assert(ls.drop_first()[li - 1] == ls[li]);
        assert(sp_field_index(ls.drop_first(), name) == li - 1) by {
            lemma_sp_field_index(ls.drop_first(), name);
            let di = sp_field_index(ls.drop_first(), name);
            assert(has_field_shift(ls, name, li));
            assert(ls.drop_first()[li - 1].name == name);
            assert(sp_has_field(ls.drop_first(), name));
            if di < li - 1 {
                assert(ls[di + 1] == ls.drop_first()[di]);
                assert(ls[di + 1].name == name);
            }
            if di > li - 1 {
                assert(forall|l: int| 0 <= l < di ==> ls.drop_first()[l].name != name);
                assert(ls.drop_first()[li - 1].name != name);
            }
        }
        assert(sp_field_nullable(ls.drop_first(), name));
        lemma_merge_keeps_nullable(ls.drop_first(), rest_rs, name);
        lemma_field_index_cons(head, sp_merge_fields(ls.drop_first(), rest_rs), name);
    }
}

/// A helper naming the fact that a positive field index names its field.
spec fn has_field_shift(ls: Seq<FieldView>, name: Seq<char>, li: int) -> bool {
    0 < li < ls.len() && ls[li].name == name
}

/// Nullability is monotonic under unification: once a field of an
/// object type is nullable, unifying the type with any further object
/// type keeps the field present and nullable.
pub proof fn lemma_unify_keeps_nullable(a: TypeView, b: TypeView, name: Seq<char>)
    requires
        a is Object,
        b is Object,
        sp_field_nullable(a->Object_0, name),
    ensures
        sp_unify(a, b) is Object,
        sp_field_nullable(sp_unify(a, b)->Object_0, name),
{
    if a == b {
    } else {
        lemma_merge_keeps_nullable(a->Object_0, b->Object_0, name);
    }
}

/// Whether every `Null`-typed field is marked nullable, as inference
/// always marks it and unification keeps it.
pub open spec fn sp_null_fields_nullable(fs: Seq<FieldView>) -> bool {
    forall|i: int| 0 <= i < fs.len() ==> ((#[trigger] fs[i]).data_type is Null ==> fs[i].is_nullable)
}

/// The exact nullability of a merged field, for objects with unique
/// field names whose `Null`-typed fields are marked nullable: the field
/// is nullable in the unification exactly when the name is missing from
/// either side, either side's field has type `Null`, or either side's
/// field is itself nullable.
pub proof fn lemma_unify_nullable_exact(a: TypeView, b: TypeView, name: Seq<char>)
    requires
        a is Object,
        b is Object,
        crate::schema::distinct_field_names(a->Object_0),
        crate::schema::distinct_field_names(b->Object_0),
        sp_null_fields_nullable(a->Object_0),
        sp_null_fields_nullable(b->Object_0),
        sp_has_field(a->Object_0, name) || sp_has_field(b->Object_0, name),
    ensures
        sp_unify(a, b) is Object,
        sp_has_field(sp_unify(a, b)->Object_0, name),
        ({
            let f1 = a->Object_0;
            let f2 = b->Object_0;
            sp_field_nullable(sp_unify(a, b)->Object_0, name) <==> {
                ||| !sp_has_field(f1, name)
                ||| !sp_has_field(f2, name)
                ||| (sp_has_field(f1, name) && sp_field_of(f1, name).data_type is Null)
                ||| (sp_has_field(f2, name) && sp_field_of(f2, name).data_type is Null)
                ||| (sp_has_field(f1, name) && sp_field_of(f1, name).is_nullable)
                ||| (sp_has_field(f2, name) && sp_field_of(f2, name).is_nullable)
            }
        }),
{
    let f1 = a->Object_0;
    let f2 = b->Object_0;
    lemma_sp_field_index(f1, name);
    lemma_sp_field_index(f2, name);
    if a == b {
        lemma_sp_field_index(f1, name);
        let i = sp_field_index(f1, name);
        assert(sp_field_of(f1, name) == f1[i]);
    } else {
        let m = sp_merge_fields(f1, f2);
        lemma_merge_at(f1, f2, name);
        lemma_sp_field_index(m, name);
        let mi = sp_field_index(m, name);
        assert(sp_field_of(m, name) == m[mi]);
    }
}


/// Deduplication keeps only types drawn from the original list.
proof fn lemma_dedup_subset(ts: Seq<TypeView>, i: int)
    requires
        0 <= i < sp_dedup(ts).len(),
    ensures
        ts.contains(sp_dedup(ts)[i]),
    decreases ts.len(),
{
    if ts.len() > 0 {
        let init = sp_dedup(ts.drop_last());
        if init.contains(ts.last()) {
            lemma_dedup_subset(ts.drop_last(), i);
            let w = choose|w: int| 0 <= w < ts.drop_last().len() && ts.drop_last()[w] == sp_dedup(
                ts,
            )[i];
            assert(ts[w] == sp_dedup(ts)[i]);
        } else {
            if i < init.len() {
                lemma_dedup_subset(ts.drop_last(), i);
                let w = choose|w: int|
                    0 <= w < ts.drop_last().len() && ts.drop_last()[w] == sp_dedup(ts)[i];
                assert(ts[w] == sp_dedup(ts)[i]);
            } else {
                assert(sp_dedup(ts)[i] == ts.last());
                assert(ts[ts.len() - 1] == ts.last());
            }
        }
    }
}

/// Deduplication keeps the set of element types exactly: a type stands
/// in the collapsed list precisely when it stands in the original one.
pub proof fn lemma_dedup_same_set(ts: Seq<TypeView>, t: TypeView)
    ensures
        sp_dedup(ts).contains(t) <==> ts.contains(t),
    decreases ts.len(),
{
    if ts.len() > 0 {
        lemma_dedup_same_set(ts.drop_last(), t);
        let init = sp_dedup(ts.drop_last());
        if sp_dedup(ts).contains(t) {
            if init.contains(ts.last()) {
                assert(ts.drop_last().contains(t));
                let w = choose|w: int| 0 <= w < ts.drop_last().len() && ts.drop_last()[w] == t;
                assert(ts[w] == t);
            } else {
                let w = choose|w: int| 0 <= w < sp_dedup(ts).len() && sp_dedup(ts)[w] == t;
                if w < init.len() {
                    assert(init[w] == t);
                    assert(init.contains(t));
                    assert(ts.drop_last().contains(t));
                    let u = choose|u: int| 0 <= u < ts.drop_last().len() && ts.drop_last()[u] == t;
                    assert(ts[u] == t);
                } else {
                    assert(t == ts.last());
                    assert(ts[ts.len() - 1] == t);
                }
            }
            assert(ts.contains(t));
        }
        if ts.contains(t) {
            let w = choose|w: int| 0 <= w < ts.len() && ts[w] == t;
            if w < ts.len() - 1 {
                assert(ts.drop_last()[w] == t);
                assert(ts.drop_last().contains(t));
                assert(init.contains(t));
                let u = choose|u: int| 0 <= u < init.len() && init[u] == t;
                if init.contains(ts.last()) {
                    assert(sp_dedup(ts)[u] == t);
                } else {
                    assert(sp_dedup(ts)[u] == t);
                }
            } else {
                assert(t == ts.last());
                if init.contains(ts.last()) {
                    let u = choose|u: int| 0 <= u < init.len() && init[u] == t;
                    assert(sp_dedup(ts)[u] == t);
                } else {
                    assert(sp_dedup(ts)[init.len() as int] == t);
                }
            }
            assert(sp_dedup(ts).contains(t));
        }
    }
}

/// Unifying two well-formed types yields a well-formed type: object
/// field names stay unique all the way down.
pub proof fn lemma_unify_wf(a: TypeView, b: TypeView)
    requires
        type_wf(a),
        type_wf(b),
    ensures
        type_wf(sp_unify(a, b)),
    decreases a, 1int,
{
    if a == b {
    } else if a is Null || b is Null {
    } else {
        match (a, b) {
            (TypeView::Array(x), TypeView::Array(y)) => {
                lemma_unify_wf(*x, *y);
            },
            (TypeView::Object(ls), TypeView::Object(rs)) => {
                let m = sp_merge_fields(ls, rs);
                lemma_merge_distinct(ls, rs);
                assert forall|i: int| 0 <= i < m.len() implies field_wf(#[trigger] m[i]) by {
                    let n = m[i].name;
                    assert(sp_has_field(m, n));
                    lemma_field_index_unique(m, i);
                    assert(sp_field_of(m, n) == m[i]);
                    lemma_merge_at(ls, rs, n);
                    lemma_sp_field_index(ls, n);
                    lemma_sp_field_index(rs, n);
                    if sp_has_field(ls, n) && sp_has_field(rs, n) {
                        let li = sp_field_index(ls, n);
                        let ri = sp_field_index(rs, n);
                        assert(field_wf(ls[li]));
                        assert(field_wf(rs[ri]));
                        if rs[ri].data_type is Null {
                        } else if ls[li].data_type is Null {
                        } else {
                            lemma_unify_wf_field(ls, li, rs[ri]);
                        }
                    } else if sp_has_field(ls, n) {
                        assert(field_wf(ls[sp_field_index(ls, n)]));
                    } else {
                        assert(field_wf(rs[sp_field_index(rs, n)]));
                    }
                }
            },
            _ => {
            },
        }
    }
}

/// Unifying one matched field pair's types keeps well-formedness.
proof fn lemma_unify_wf_field(ls: Seq<FieldView>, i: int, g: FieldView)
    requires
        0 <= i < ls.len(),
        field_wf(ls[i]),
        field_wf(g),
    ensures
        type_wf(sp_unify(ls[i].data_type, g.data_type)),
    decreases ls, 0int,
{
    lemma_unify_wf(ls[i].data_type, g.data_type);
}

/// The type inferred from a well-formed value is well formed: its field
/// names come from the value's own unique keys.
pub proof fn lemma_infer_wf(v: ValueView)
    requires
        value_wf(v),
    ensures
        type_wf(sp_infer(v)),
    decreases v, 3int,
{
    match v {
        ValueView::Array(vs) => {
            lemma_sp_infer_elems(vs);
            let ts = sp_infer_elems(vs);
            assert forall|i: int| 0 <= i < sp_dedup(ts).len() implies type_wf(
                #[trigger] sp_dedup(ts)[i],
            ) by {
                lemma_dedup_subset(ts, i);
                let w = choose|w: int| 0 <= w < ts.len() && ts[w] == sp_dedup(ts)[i];
                assert(ts[w] == sp_infer(vs[w]));
                assert(value_wf(vs[w]));
                lemma_infer_wf_elem(vs, w);
            }
            lemma_unify_all_wf(sp_dedup(ts));
        },
        ValueView::Object(es) => {
            lemma_sp_infer_fields(es);
            let fs = sp_infer_fields(es);
            assert forall|a: int, b: int| 0 <= a < b < fs.len() implies fs[a].name != fs[b].name by {
                assert(fs[a] == sp_infer_field(es[a]));
                assert(fs[b] == sp_infer_field(es[b]));
            }
            assert forall|i: int| 0 <= i < fs.len() implies field_wf(#[trigger] fs[i]) by {
                assert(fs[i] == sp_infer_field(es[i]));
                assert(value_wf(es[i].1));
                lemma_infer_wf_entry(es, i);
            }
        },
        _ => {
        },
    }
}

/// The type inferred from one well-formed element is well formed.
proof fn lemma_infer_wf_elem(vs: Seq<ValueView>, i: int)
    requires
        0 <= i < vs.len(),
        value_wf(vs[i]),
    ensures
        type_wf(sp_infer(vs[i])),
    decreases vs, 4int,
{
    lemma_infer_wf(vs[i]);
}

/// The field inferred from one well-formed entry is well formed.
proof fn lemma_infer_wf_entry(es: Seq<(Seq<char>, ValueView)>, i: int)
    requires
        0 <= i < es.len(),
        value_wf(es[i].1),
    ensures
        field_wf(sp_infer_field(es[i])),
    decreases es, 4int,
{
    lemma_infer_wf_value_of_entry(es[i]);
}

/// The type inferred from one well-formed entry value is well formed.
proof fn lemma_infer_wf_value_of_entry(e: (Seq<char>, ValueView))
    requires
        value_wf(e.1),
    ensures
        field_wf(sp_infer_field(e)),
    decreases e, 4int,
{
    lemma_infer_wf(e.1);
}

/// The fold of unification over well-formed types is well formed.
pub proof fn lemma_unify_all_wf(ts: Seq<TypeView>)
    requires
        forall|i: int| 0 <= i < ts.len() ==> type_wf(#[trigger] ts[i]),
    ensures
        type_wf(crate::unify::sp_unify_all(ts)),
    decreases ts.len(),
{
    if ts.len() > 0 {
        assert(forall|i: int|
            0 <= i < ts.drop_last().len() ==> type_wf(#[trigger] ts.drop_last()[i]));
        lemma_unify_all_wf(ts.drop_last());
        assert(type_wf(ts.last()));
        lemma_unify_wf(crate::unify::sp_unify_all(ts.drop_last()), ts.last());
    }
}

/// The schema discovered from a stream of well-formed records has
/// unique field names in every object, all the way down.
pub proof fn lemma_discovered_schema_wf(recs: Seq<ValueView>)
    requires
        forall|i: int| 0 <= i < recs.len() ==> value_wf(#[trigger] recs[i]),
    ensures
        type_wf(crate::unify::sp_unify_all(recs.map_values(|v: ValueView| sp_infer(v)))),
{
    let ts = recs.map_values(|v: ValueView| sp_infer(v));
    assert forall|i: int| 0 <= i < ts.len() implies type_wf(#[trigger] ts[i]) by {
        assert(ts[i] == sp_infer(recs[i]));
        lemma_infer_wf(recs[i]);
    }
    lemma_unify_all_wf(ts);
}

} // verus!
