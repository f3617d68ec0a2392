use crate::value::entries_view;
use crate::value::entry_view;
use crate::value::find_entry;
use crate::value::has_key;
use crate::value::key_index;
use crate::value::lemma_entries_view;
use crate::value::distinct_keys;
use crate::value::lemma_key_index;
use crate::value::value_wf;
use crate::value::Value;
use crate::value::ValueView;
use vstd::prelude::*;
use vstd::string::StringExecFns;

verus! {

/// The insertion of one entry into an ordered object: an existing key
/// keeps its position and takes the new value, a new key is appended.
pub open spec fn sp_insert(
    es: Seq<(Seq<char>, ValueView)>,
    k: Seq<char>,
    v: ValueView,
) -> Seq<(Seq<char>, ValueView)> {
    let i = key_index(es, k);
    if 0 <= i < es.len() {
        es.update(i, (k, v))
    } else {
        es.push((k, v))
    }
}

/// The flattened key of a nested entry: the parent path and the entry's
/// own key, joined with a dot.
pub open spec fn sp_join_key(prefix: Option<Seq<char>>, k: Seq<char>) -> Seq<char> {
    match prefix {
        Option::None => k,
        Option::Some(p) => p + seq!['.'] + k,
    }
}

/// One step of flattening: a nested object is walked recursively under
/// the joined key, every other value is inserted under the joined key.
pub open spec fn sp_flatten_entry(
    dest: Seq<(Seq<char>, ValueView)>,
    prefix: Option<Seq<char>>,
    e: (Seq<char>, ValueView),
) -> Seq<(Seq<char>, ValueView)>
    decreases e, 1int,
{
    match e.1 {
        ValueView::Object(inner) => sp_flatten_into(dest, Option::Some(sp_join_key(prefix, e.0)), inner),
        _ => sp_insert(dest, sp_join_key(prefix, e.0), e.1),
    }
}

/// The left-to-right flattening of a whole entry list into `dest`.
pub open spec fn sp_flatten_into(
    dest: Seq<(Seq<char>, ValueView)>,
    prefix: Option<Seq<char>>,
    es: Seq<(Seq<char>, ValueView)>,
) -> Seq<(Seq<char>, ValueView)>
    decreases es, 0int,
{
    if es.len() == 0 {
        dest
    } else {
        sp_flatten_into(sp_flatten_entry(dest, prefix, es[0]), prefix, es.drop_first())
    }
}

/// Whether an object is already flat: no value of it is itself an object.
pub open spec fn sp_flat(es: Seq<(Seq<char>, ValueView)>) -> bool {
    forall|i: int| 0 <= i < es.len() ==> !((#[trigger] es[i]).1 is Object)
}

/// The recursive dot-path flattening of an object: an already-flat object
/// is returned unchanged, anything else is rebuilt by walking nested
/// objects; arrays are never descended into. Where two joined paths
/// collide — as in an object carrying both a nested `b` under `a` and a
/// literal `a.b` key — the later leaf replaces the earlier value at its
/// position, as `sp_insert` does for any duplicate key.
pub open spec fn sp_flatten(es: Seq<(Seq<char>, ValueView)>) -> Seq<(Seq<char>, ValueView)> {
    if sp_flat(es) {
        es
    } else {
        sp_flatten_into(Seq::empty(), Option::None, es)
    }
}

/// Flattening an already-flat object returns the identical object.
pub proof fn lemma_flatten_flat_identity(es: Seq<(Seq<char>, ValueView)>)
    requires
        sp_flat(es),
    ensures
        sp_flatten(es) == es,
{
}

/// Inserting into an object with unique keys and well-formed values keeps
/// both.
pub proof fn lemma_insert_wf(es: Seq<(Seq<char>, ValueView)>, k: Seq<char>, v: ValueView)
    requires
        distinct_keys(es),
        forall|j: int| 0 <= j < es.len() ==> value_wf((#[trigger] es[j]).1),
        value_wf(v),
    ensures
        distinct_keys(sp_insert(es, k, v)),
        forall|j: int| 0 <= j < sp_insert(es, k, v).len() ==> value_wf(
            (#[trigger] sp_insert(es, k, v)[j]).1,
        ),
{
    lemma_key_index(es, k);
    let out = sp_insert(es, k, v);
    let i = key_index(es, k);
    if 0 <= i < es.len() {
        assert(es[i].0 == k);
        assert forall|a: int, b: int| 0 <= a < b < out.len() implies out[a].0 != out[b].0 by {
            assert(out[a].0 == es[a].0);
            assert(out[b].0 == es[b].0);
        }
    }
}

/// Flattening one entry into a well-formed destination keeps the
/// destination well formed.
pub proof fn lemma_flatten_entry_wf(
    dest: Seq<(Seq<char>, ValueView)>,
    prefix: Option<Seq<char>>,
    e: (Seq<char>, ValueView),
)
    requires
        distinct_keys(dest),
        forall|j: int| 0 <= j < dest.len() ==> value_wf((#[trigger] dest[j]).1),
        value_wf(e.1),
    ensures
        distinct_keys(sp_flatten_entry(dest, prefix, e)),
        forall|j: int| 0 <= j < sp_flatten_entry(dest, prefix, e).len() ==> value_wf(
            (#[trigger] sp_flatten_entry(dest, prefix, e)[j]).1,
        ),
    decreases e, 1int,
{
    match e.1 {
        ValueView::Object(inner) => {
            assert(forall|j: int| 0 <= j < inner.len() ==> value_wf((#[trigger] inner[j]).1));
            lemma_flatten_into_wf(dest, Option::Some(sp_join_key(prefix, e.0)), inner);
        },
        _ => {
            lemma_insert_wf(dest, sp_join_key(prefix, e.0), e.1);
        },
    }
}

/// Flattening a whole entry list into a well-formed destination keeps the
/// destination well formed.
pub proof fn lemma_flatten_into_wf(
    dest: Seq<(Seq<char>, ValueView)>,
    prefix: Option<Seq<char>>,
    es: Seq<(Seq<char>, ValueView)>,
)
    requires
        distinct_keys(dest),
        forall|j: int| 0 <= j < dest.len() ==> value_wf((#[trigger] dest[j]).1),
        forall|j: int| 0 <= j < es.len() ==> value_wf((#[trigger] es[j]).1),
    ensures
        distinct_keys(sp_flatten_into(dest, prefix, es)),
        forall|j: int| 0 <= j < sp_flatten_into(dest, prefix, es).len() ==> value_wf(
            (#[trigger] sp_flatten_into(dest, prefix, es)[j]).1,
        ),
    decreases es, 0int,
{
    if es.len() > 0 {
        lemma_flatten_entry_wf(dest, prefix, es[0]);
        assert(forall|j: int|
            0 <= j < es.drop_first().len() ==> value_wf((#[trigger] es.drop_first()[j]).1));
        lemma_flatten_into_wf(sp_flatten_entry(dest, prefix, es[0]), prefix, es.drop_first());
    }
}

/// Flattening keeps an object value well formed.
pub proof fn lemma_flatten_wf(es: Seq<(Seq<char>, ValueView)>)
    requires
        value_wf(ValueView::Object(es)),
    ensures
        value_wf(ValueView::Object(sp_flatten(es))),
{
    assert(distinct_keys(es));
    assert(forall|j: int| 0 <= j < es.len() ==> value_wf((#[trigger] es[j]).1));
    if !sp_flat(es) {
        lemma_flatten_into_wf(Seq::empty(), Option::None, es);
    }
}

/// Inserting a non-object value into a flat destination keeps it flat.
proof fn lemma_insert_flat(es: Seq<(Seq<char>, ValueView)>, k: Seq<char>, v: ValueView)
    requires
        sp_flat(es),
        !(v is Object),
    ensures
        sp_flat(sp_insert(es, k, v)),
{
    let out = sp_insert(es, k, v);
    let i = key_index(es, k);
    assert forall|j: int| 0 <= j < out.len() implies !((#[trigger] out[j]).1 is Object) by {
        if 0 <= i < es.len() {
            if j != i {
                assert(out[j] == es[j]);
            }
        } else {
            if j < es.len() {
                assert(out[j] == es[j]);
            }
        }
    }
}

/// Flattening one entry into a flat destination keeps it flat.
pub proof fn lemma_flatten_entry_flat(
    dest: Seq<(Seq<char>, ValueView)>,
    prefix: Option<Seq<char>>,
    e: (Seq<char>, ValueView),
)
    requires
        sp_flat(dest),
    ensures
        sp_flat(sp_flatten_entry(dest, prefix, e)),
    decreases e, 1int,
{
    match e.1 {
        ValueView::Object(inner) => {
            lemma_flatten_into_flat(dest, Option::Some(sp_join_key(prefix, e.0)), inner);
        },
        _ => {
            lemma_insert_flat(dest, sp_join_key(prefix, e.0), e.1);
        },
    }
}

/// Flattening a whole entry list into a flat destination keeps it flat.
pub proof fn lemma_flatten_into_flat(
    dest: Seq<(Seq<char>, ValueView)>,
    prefix: Option<Seq<char>>,
    es: Seq<(Seq<char>, ValueView)>,
)
    requires
        sp_flat(dest),
    ensures
        sp_flat(sp_flatten_into(dest, prefix, es)),
    decreases es, 0int,
{
    if es.len() > 0 {
        lemma_flatten_entry_flat(dest, prefix, es[0]);
        lemma_flatten_into_flat(sp_flatten_entry(dest, prefix, es[0]), prefix, es.drop_first());
    }
}

/// Flattening leaves no nested object behind: every value of the result
/// is a leaf.
pub proof fn lemma_flatten_is_flat(es: Seq<(Seq<char>, ValueView)>)
    ensures
        sp_flat(sp_flatten(es)),
{
    if !sp_flat(es) {
        lemma_flatten_into_flat(Seq::empty(), Option::None, es);
    }
}

/// Insert one entry, as `sp_insert` describes it.
pub fn obj_insert(dest: &mut Vec<(String, Value)>, key: String, v: Value)
    ensures
        entries_view(final(dest)@) == sp_insert(entries_view(old(dest)@), key@, v@),
{
    proof {
        lemma_entries_view(dest@);
        lemma_key_index(entries_view(dest@), key@);
    }
    let found = find_entry(dest, &key);
    let ghost origv = entries_view(dest@);
    proof {
        match found {
            Some(i) => {
                assert(origv[i as int] == entry_view(dest@[i as int]));
                assert(has_key(origv, key@));
                assert forall|j: int| 0 <= j < i implies origv[j].0 != key@ by {
                    assert(origv[j] == entry_view(dest@[j]));
                }
                assert(key_index(origv, key@) == i as int) by {
                    let ki = key_index(origv, key@);
                    if ki < i as int {
                        assert(origv[ki].0 == key@);
                    }
                    if ki > i as int {
                        assert(origv[i as int].0 != key@);
                    }
                }
            },
            None => {
                assert forall|j: int| 0 <= j < origv.len() implies origv[j].0 != key@ by {
                    assert(origv[j] == entry_view(dest@[j]));
                }
                assert(!has_key(origv, key@));
                assert(key_index(origv, key@) == -1);
            },
        }
    }
    match found {
        Some(i) => {
            let slot = &mut dest[i];
            slot.0 = key;
            slot.1 = v;
            proof {
                lemma_entries_view(dest@);
                assert(entries_view(dest@) =~= origv.update(i as int, (key@, v@)));
            }
        },
        None => {
            dest.push((key, v));
            proof {
                lemma_entries_view(dest@);
                assert(entries_view(dest@) =~= origv.push((key@, v@)));
            }
        },
    }
}

/// The flattened key of a nested entry, as `sp_join_key` describes it.
fn join_key(prefix: Option<&String>, k: &String) -> (r: String)
    ensures
        r@ == sp_join_key(
            match prefix {
                Some(p) => Option::Some(p@),
                None => Option::None,
            },
            k@,
        ),
{
    match prefix {
        None => k.clone(),
        Some(p) => {
            let mut s = p.clone();
            s.append(".");
            s.append(k.as_str());
            proof {
                reveal_strlit(".");
                assert("."@ =~= seq!['.']);
                assert(s@ =~= p@ + seq!['.'] + k@);
            }
            s
        },
    }
}

/// One step of flattening, as `sp_flatten_entry` describes it.
fn insert_entry(dest: &mut Vec<(String, Value)>, prefix: Option<&String>, e: &(String, Value))
    ensures
        entries_view(final(dest)@) == sp_flatten_entry(
            entries_view(old(dest)@),
            match prefix {
                Some(p) => Option::Some(p@),
                None => Option::None,
            },
            entry_view(*e),
        ),
    decreases *e, 1int,
{
    let key = join_key(prefix, &e.0);
    match &e.1 {
        Value::Object(inner) => {
            proof {
                lemma_entries_view(inner@);
            }
            insert_object(dest, Some(&key), inner);
        },
        _ => {
            let v = e.1.deep_clone();
            obj_insert(dest, key, v);
        },
    }
}

/// Flatten a whole entry list into `dest`, as `sp_flatten_into` describes
/// it.
fn insert_object(dest: &mut Vec<(String, Value)>, prefix: Option<&String>, object: &Vec<(String, Value)>)
    ensures
        entries_view(final(dest)@) == sp_flatten_into(
            entries_view(old(dest)@),
            match prefix {
                Some(p) => Option::Some(p@),
                None => Option::None,
            },
            entries_view(object@),
        ),
    decreases *object, 0int,
{
    let ghost p = match prefix {
        Some(p) => Option::Some(p@),
        None => Option::<Seq<char>>::None,
    };
    let ghost esv = entries_view(object@);
    let mut i: usize = 0;
    proof {
        lemma_entries_view(object@);
        assert(esv.skip(0) =~= esv);
    }
    while i < object.len()
        invariant
            i <= object@.len(),
            esv == entries_view(object@),
            esv.len() == object@.len(),
            p == (match prefix {
                Some(q) => Option::Some(q@),
                None => Option::<Seq<char>>::None,
            }),
            forall|j: int| 0 <= j < object@.len() ==> esv[j] == entry_view(#[trigger] object@[j]),
            sp_flatten_into(entries_view(dest@), p, esv.skip(i as int)) == sp_flatten_into(
                entries_view(old(dest)@),
                p,
                esv,
            ),
        decreases object@.len() - i,
    {
        let ghost tail = esv.skip(i as int);
        proof {
            assert(tail[0] == esv[i as int]);
            assert(tail[0] == entry_view(object@[i as int]));
            assert(tail.drop_first() =~= esv.skip(i as int + 1));
        }
        let e = &object[i];
        insert_entry(dest, prefix, e);
        i = i + 1;
    }
    proof {
        assert(esv.skip(esv.len() as int) =~= Seq::<(Seq<char>, ValueView)>::empty());
    }
}

/// The recursive dot-path flattening of an object, as `sp_flatten`
/// describes it: the fast path hands an already-flat object back
/// untouched.
pub fn flatten(object: Vec<(String, Value)>) -> (r: Vec<(String, Value)>)
    ensures
        entries_view(r@) == sp_flatten(entries_view(object@)),
{
    proof {
        lemma_entries_view(object@);
    }
    let mut has_objects = false;
    let mut i: usize = 0;
    while i < object.len()
        invariant
            i <= object@.len(),
            entries_view(object@).len() == object@.len(),
            forall|j: int| 0 <= j < object@.len() ==> entries_view(object@)[j] == entry_view(
                #[trigger] object@[j],
            ),
            has_objects ==> !sp_flat(entries_view(object@)),
            !has_objects ==> forall|j: int|
                0 <= j < i ==> !((#[trigger] entries_view(object@)[j]).1 is Object),
        decreases object@.len() - i,
    {
        let is_obj = object[i].1.is_object();
        proof {
            assert(entries_view(object@)[i as int] == entry_view(object@[i as int]));
        }
        if is_obj {
            has_objects = true;
        }
        i = i + 1;
    }
    if !has_objects {
        proof {
            assert(sp_flat(entries_view(object@)));
        }
        return object;
    }
    let mut dest: Vec<(String, Value)> = Vec::new();
    proof {
        assert(entries_view(dest@) =~= Seq::<(Seq<char>, ValueView)>::empty());
    }
    insert_object(&mut dest, None, &object);
    dest
}

impl Value {
    /// The value with its object flattened, or the value unchanged when it
    /// is no object.
    pub fn flatten_object(self) -> (r: Value)
        ensures
            match self@ {
                ValueView::Object(es) => r@ == ValueView::Object(sp_flatten(es)),
                _ => r@ == self@,
            },
    {
        match self {
            Value::Object(map) => {
                proof {
                    lemma_entries_view(map@);
                }
                let flat = flatten(map);
                proof {
                    crate::value::lemma_entries_view(flat@);
                }
                Value::Object(flat)
            },
            other => other,
        }
    }
}

} // verus!
