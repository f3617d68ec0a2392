use vstd::prelude::*;

verus! {

broadcast use vstd::std_specs::vec::axiom_vec_index_decreases;

/// The mathematical shape of a [`Value`]: strings become sequences of
/// characters, vectors become sequences, and an object becomes the
/// sequence of its entries in insertion order.
#[verifier::ext_equal]
pub enum ValueView {
    Null,
    Bool(bool),
    String(Seq<char>),
    Int(i64),
    Float(Seq<char>),
    Array(Seq<ValueView>),
    Object(Seq<(Seq<char>, ValueView)>),
    Binary(Seq<u8>),
}

/// A dynamically typed record value.
///
/// An object keeps its entries in insertion order with unique keys; output
/// column order and `CREATE TABLE` column order derive from that order. A
/// floating-point number is carried as the decimal text it was read with:
/// the library never computes with it, it only classifies, reorders and
/// re-renders it, so no precision is lost in transit. The text passes
/// through verbatim — a float read as `1e3` renders as `1e3`, not
/// `1000` — since numeric normalization would need floating-point
/// arithmetic, which stays outside verified code.
pub enum Value {
    Null,
    Bool(bool),
    String(String),
    Int(i64),
    Float(String),
    Array(Vec<Value>),
    Object(Vec<(String, Value)>),
    Binary(Vec<u8>),
}

impl View for Value {
    type V = ValueView;

    open spec fn view(&self) -> ValueView
        decreases self,
    {
        match self {
            Value::Null => ValueView::Null,
            Value::Bool(b) => ValueView::Bool(*b),
            Value::String(s) => ValueView::String(s@),
            Value::Int(i) => ValueView::Int(*i),
            Value::Float(t) => ValueView::Float(t@),
            Value::Array(vs) => ValueView::Array(values_view(vs@)),
            Value::Object(es) => ValueView::Object(entries_view(es@)),
            Value::Binary(bs) => ValueView::Binary(bs@),
        }
    }
}

/// The view of one object entry.
pub open spec fn entry_view(e: (String, Value)) -> (Seq<char>, ValueView)
    decreases e,
{
    (e.0@, e.1@)
}

/// The view of a sequence of array elements, element by element.
pub open spec fn values_view(vs: Seq<Value>) -> Seq<ValueView>
    decreases vs,
{
    if vs.len() == 0 {
        Seq::empty()
    } else {
        seq![vs[0]@] + values_view(vs.drop_first())
    }
}

/// The view of a sequence of object entries, key by key.
pub open spec fn entries_view(es: Seq<(String, Value)>) -> Seq<(Seq<char>, ValueView)>
    decreases es,
{
    if es.len() == 0 {
        Seq::empty()
    } else {
        seq![entry_view(es[0])] + entries_view(es.drop_first())
    }
}

/// `values_view` maps the view over the elements, index by index.
pub proof fn lemma_values_view(vs: Seq<Value>)
    ensures
        values_view(vs).len() == vs.len(),
        forall|i: int|
            #![trigger values_view(vs)[i]]
            #![trigger vs[i]@]
            0 <= i < vs.len() ==> values_view(vs)[i] == vs[i]@,
    decreases vs,
{
    if vs.len() > 0 {
        lemma_values_view(vs.drop_first());
        assert(values_view(vs) == seq![vs[0]@] + values_view(vs.drop_first()));
        assert forall|i: int| 0 <= i < vs.len() implies values_view(vs)[i] == #[trigger] vs[i]@ by {
            if i > 0 {
                assert(vs.drop_first()[i - 1] == vs[i]);
                assert(values_view(vs)[i] == values_view(vs.drop_first())[i - 1]);
            }
        }
    }
}

/// `entries_view` maps the view over the entries, index by index.
pub proof fn lemma_entries_view(es: Seq<(String, Value)>)
    ensures
        entries_view(es).len() == es.len(),
        forall|i: int|
            #![trigger entries_view(es)[i]]
            #![trigger entry_view(es[i])]
            0 <= i < es.len() ==> entries_view(es)[i] == entry_view(es[i]),
    decreases es,
{
    if es.len() > 0 {
        lemma_entries_view(es.drop_first());
        assert(entries_view(es) == seq![entry_view(es[0])] + entries_view(es.drop_first()));
        assert forall|i: int| 0 <= i < es.len() implies entries_view(es)[i] == entry_view(
            #[trigger] es[i],
        ) by {
            if i > 0 {
                assert(es.drop_first()[i - 1] == es[i]);
                assert(entries_view(es)[i] == entries_view(es.drop_first())[i - 1]);
            }
        }
    }
}

/// No two entries share a key.
pub open spec fn distinct_keys(es: Seq<(Seq<char>, ValueView)>) -> bool {
    forall|i: int, j: int| 0 <= i < j < es.len() ==> es[i].0 != es[j].0
}

/// Some entry carries the key `k`.
pub open spec fn has_key(es: Seq<(Seq<char>, ValueView)>, k: Seq<char>) -> bool {
    exists|i: int| 0 <= i < es.len() && es[i].0 == k
}

/// The index of the first entry carrying the key `k`, or `-1`.
pub open spec fn key_index(es: Seq<(Seq<char>, ValueView)>, k: Seq<char>) -> int
    decreases es.len(),
{
    if es.len() == 0 {
        -1
    } else if es[0].0 == k {
        0
    } else {
        let r = key_index(es.drop_first(), k);
        if r < 0 {
            -1
        } else {
            r + 1
        }
    }
}

/// `key_index` finds exactly the first entry with the given key.
pub proof fn lemma_key_index(es: Seq<(Seq<char>, ValueView)>, k: Seq<char>)
    ensures
        has_key(es, k) <==> key_index(es, k) >= 0,
        key_index(es, k) >= 0 ==> {
            let i = key_index(es, k);
            &&& i < es.len()
            &&& es[i].0 == k
            &&& forall|j: int| 0 <= j < i ==> es[j].0 != k
        },
    decreases es.len(),
{
    if es.len() > 0 && es[0].0 != k {
        lemma_key_index(es.drop_first(), k);
        let r = key_index(es.drop_first(), k);
        if r >= 0 {
            assert(es.drop_first()[r] == es[r + 1]);
            assert forall|j: int| 0 <= j < r + 1 implies es[j].0 != k by {
                if j > 0 {
                    assert(es.drop_first()[j - 1] == es[j]);
                }
            }
        }
        if has_key(es, k) {
            let i = choose|i: int| 0 <= i < es.len() && es[i].0 == k;
            assert(es.drop_first()[i - 1] == es[i]);
            assert(has_key(es.drop_first(), k));
        }
        if r >= 0 {
            assert(es.drop_first()[r] == es[r + 1]);
            assert(has_key(es, k));
        }
    }
}

/// The length of a mapped element view sequence.
pub broadcast proof fn lemma_values_view_len(vs: Seq<Value>)
    ensures
        #[trigger] values_view(vs).len() == vs.len(),
{
    lemma_values_view(vs);
}

/// An indexed element of a mapped element view sequence.
pub broadcast proof fn lemma_values_view_index(vs: Seq<Value>, i: int)
    requires
        0 <= i < vs.len(),
    ensures
        #[trigger] values_view(vs)[i] == vs[i]@,
{
    lemma_values_view(vs);
}

/// The length of a mapped entry view sequence.
pub broadcast proof fn lemma_entries_view_len(es: Seq<(String, Value)>)
    ensures
        #[trigger] entries_view(es).len() == es.len(),
{
    lemma_entries_view(es);
}

/// An indexed entry of a mapped entry view sequence.
pub broadcast proof fn lemma_entries_view_index(es: Seq<(String, Value)>, i: int)
    requires
        0 <= i < es.len(),
    ensures
        #[trigger] entries_view(es)[i] == entry_view(es[i]),
{
    lemma_entries_view(es);
}

/// Well-formedness: every object in the tree has unique keys.
pub open spec fn value_wf(v: ValueView) -> bool
    decreases v,
{
    match v {
        ValueView::Array(vs) => forall|i: int| 0 <= i < vs.len() ==> value_wf(#[trigger] vs[i]),
        ValueView::Object(es) => distinct_keys(es) && forall|i: int|
            0 <= i < es.len() ==> value_wf(#[trigger] es[i].1),
        _ => true,
    }
}

impl Default for Value {
    /// The null value.
    fn default() -> (r: Value)
        ensures
            r@ == ValueView::Null,
    {
        Value::Null
    }
}

impl Value {
    /// Whether the value is an object.
    pub fn is_object(&self) -> (r: bool)
        ensures
            r == (self@ is Object),
    {
        match self {
            Value::Object(_) => true,
            _ => false,
        }
    }

    /// The entries of an object value, or `None` for any other variant.
    pub fn as_object(&self) -> (r: Option<&Vec<(String, Value)>>)
        ensures
            match r {
                Some(es) => self@ == ValueView::Object(entries_view(es@)),
                None => !(self@ is Object),
            },
    {
        match self {
            Value::Object(es) => {
                Some(es)
            },
            _ => None,
        }
    }

    /// The payload of an integer value, or `None` for any other variant.
    pub fn as_int(&self) -> (r: Option<i64>)
        ensures
            match r {
                Some(i) => self@ == ValueView::Int(i),
                None => !(self@ is Int),
            },
    {
        match self {
            Value::Int(v) => Some(*v),
            _ => None,
        }
    }

    /// The decimal text of a float value, or `None` for any other variant.
    pub fn as_float(&self) -> (r: Option<&String>)
        ensures
            match r {
                Some(t) => self@ == ValueView::Float(t@),
                None => !(self@ is Float),
            },
    {
        match self {
            Value::Float(v) => Some(v),
            _ => None,
        }
    }

    /// The payload of a boolean value, or `None` for any other variant.
    pub fn as_bool(&self) -> (r: Option<&bool>)
        ensures
            match r {
                Some(b) => self@ == ValueView::Bool(*b),
                None => !(self@ is Bool),
            },
    {
        match self {
            Value::Bool(v) => Some(v),
            _ => None,
        }
    }

    /// The payload of a string value, or `None` for any other variant.
    pub fn as_string(&self) -> (r: Option<&String>)
        ensures
            match r {
                Some(s) => self@ == ValueView::String(s@),
                None => !(self@ is String),
            },
    {
        match self {
            Value::String(v) => Some(v),
            _ => None,
        }
    }

    /// Whether the value is an array.
    pub fn is_array(&self) -> (r: bool)
        ensures
            r == (self@ is Array),
    {
        match self {
            Value::Array(_) => true,
            _ => false,
        }
    }

    /// The elements of an array value, or `None` for any other variant.
    pub fn as_array(&self) -> (r: Option<&Vec<Value>>)
        ensures
            match r {
                Some(vs) => self@ == ValueView::Array(values_view(vs@)),
                None => !(self@ is Array),
            },
    {
        match self {
            Value::Array(vs) => {
                Some(vs)
            },
            _ => None,
        }
    }

    /// The entries of an object value, or an input error for any other
    /// variant.
    pub fn unwrap_object(&self) -> (r: Result<&Vec<(String, Value)>, crate::error::Error>)
        ensures
            match r {
                Ok(es) => self@ == ValueView::Object(entries_view(es@)),
                Err(_) => !(self@ is Object),
            },
    {
        match self {
            Value::Object(es) => {
                Ok(es)
            },
            _ => Err(crate::error::Error::CustomError(
                "Expected value to be an object".to_owned(),
            )),
        }
    }

    /// A structurally identical copy of the value.
    pub fn deep_clone(&self) -> (r: Value)
        ensures
            r@ == self@,
        decreases self,
    {
        match self {
            Value::Null => Value::Null,
            Value::Bool(b) => Value::Bool(*b),
            Value::String(s) => Value::String(s.clone()),
            Value::Int(i) => Value::Int(*i),
            Value::Float(t) => Value::Float(t.clone()),
            Value::Array(vs) => {
                let out = clone_values(vs);
                proof {
                    lemma_values_view(out@);
                    lemma_values_view(vs@);
                    assert forall|j: int|
                        0 <= j < vs@.len() implies values_view(out@)[j] == values_view(vs@)[j] by {
                        assert(out@[j]@ == vs@[j]@);
                    }
                    assert(values_view(out@) =~= values_view(vs@));
                }
                Value::Array(out)
            },
            Value::Object(es) => {
                let out = clone_entries(es);
                proof {
                    lemma_entries_view(out@);
                    lemma_entries_view(es@);
                    assert forall|j: int|
                        0 <= j < es@.len() implies entries_view(out@)[j] == entries_view(es@)[j] by {
                        assert(entry_view(out@[j]) == entry_view(es@[j]));
                    }
                    assert(entries_view(out@) =~= entries_view(es@));
                }
                Value::Object(out)
            },
            Value::Binary(bs) => {
                let mut out: Vec<u8> = Vec::new();
                let mut i: usize = 0;
                while i < bs.len()
                    invariant
                        i <= bs.len(),
                        out@ == bs@.subrange(0, i as int),
                    decreases bs.len() - i,
                {
                    out.push(bs[i]);
                    i = i + 1;
                    proof {
                        assert(out@ =~= bs@.subrange(0, i as int));
                    }
                }
                proof {
                    assert(bs@.subrange(0, bs@.len() as int) =~= bs@);
                }
                Value::Binary(out)
            },
        }
    }
}

/// A structurally identical copy of every element of an array.
fn clone_values(vs: &Vec<Value>) -> (r: Vec<Value>)
    ensures
        r@.len() == vs@.len(),
        forall|j: int| 0 <= j < vs@.len() ==> r@[j]@ == vs@[j]@,
    decreases *vs,
{
    let mut out: Vec<Value> = Vec::new();
    let mut i: usize = 0;
    while i < vs.len()
        invariant
            i <= vs.len(),
            out@.len() == i as int,
            forall|j: int| 0 <= j < i ==> out@[j]@ == vs@[j]@,
        decreases vs.len() - i,
    {
        let item = &vs[i];
        out.push(item.deep_clone());
        i = i + 1;
    }
    out
}

/// A structurally identical copy of every entry of an object.
fn clone_entries(es: &Vec<(String, Value)>) -> (r: Vec<(String, Value)>)
    ensures
        r@.len() == es@.len(),
        forall|j: int| 0 <= j < es@.len() ==> entry_view(r@[j]) == entry_view(es@[j]),
    decreases *es,
{
    let mut out: Vec<(String, Value)> = Vec::new();
    let mut i: usize = 0;
    while i < es.len()
        invariant
            i <= es.len(),
            out@.len() == i as int,
            forall|j: int| 0 <= j < i ==> entry_view(out@[j]) == entry_view(es@[j]),
        decreases es.len() - i,
    {
        let entry = &es[i];
        out.push(clone_entry(entry));
        i = i + 1;
    }
    out
}

/// A structurally identical copy of one object entry.
fn clone_entry(e: &(String, Value)) -> (r: (String, Value))
    ensures
        entry_view(r) == entry_view(*e),
    decreases *e,
{
    (e.0.clone(), e.1.deep_clone())
}

/// The value an object carries under a key, by first match.
pub fn obj_get<'a>(es: &'a Vec<(String, Value)>, key: &String) -> (r: Option<&'a Value>)
    ensures
        ({
            let i = key_index(entries_view(es@), key@);
            match r {
                Some(v) => 0 <= i < es@.len() && *v == es@[i].1 && v@ == entries_view(es@)[i].1,
                None => i == -1,
            }
        }),
{
    proof {
        lemma_entries_view(es@);
        lemma_key_index(entries_view(es@), key@);
    }
    let ghost esv = entries_view(es@);
    let found = find_entry(es, key);
    proof {
        match found {
            Some(i) => {
                assert(esv[i as int] == entry_view(es@[i as int]));
                assert(has_key(esv, key@));
                assert forall|j: int| 0 <= j < i implies esv[j].0 != key@ by {
                    assert(esv[j] == entry_view(es@[j]));
                }
                assert(key_index(esv, key@) == i as int) by {
                    let ki = key_index(esv, key@);
                    if ki < i as int {
                        assert(esv[ki].0 == key@);
                    }
                    if ki > i as int {
                        assert(esv[i as int].0 != key@);
                    }
                }
            },
            None => {
                assert forall|j: int| 0 <= j < esv.len() implies esv[j].0 != key@ by {
                    assert(esv[j] == entry_view(es@[j]));
                }
                assert(!has_key(esv, key@));
            },
        }
    }
    match found {
        Some(i) => {
            let e = &es[i];
            proof {
                assert(entry_view(*e).1 == esv[key_index(esv, key@)].1);
            }
            Some(&e.1)
        },
        None => None,
    }
}

/// Structural equality of two values.
pub fn value_eq(a: &Value, b: &Value) -> (r: bool)
    ensures
        r == (a@ == b@),
    decreases a, 0int,
{
    match (a, b) {
        (Value::Null, Value::Null) => true,
        (Value::Bool(x), Value::Bool(y)) => *x == *y,
        (Value::String(x), Value::String(y)) => *x == *y,
        (Value::Int(x), Value::Int(y)) => *x == *y,
        (Value::Float(x), Value::Float(y)) => *x == *y,
        (Value::Array(xs), Value::Array(ys)) => values_eq(xs, ys),
        (Value::Object(xs), Value::Object(ys)) => entries_eq(xs, ys),
        (Value::Binary(xs), Value::Binary(ys)) => {
            if xs.len() != ys.len() {
                return false;
            }
            let mut i: usize = 0;
            while i < xs.len()
                invariant
                    i <= xs.len(),
                    xs@.len() == ys@.len(),
                    a@ == ValueView::Binary(xs@),
                    b@ == ValueView::Binary(ys@),
                    forall|j: int| 0 <= j < i ==> xs@[j] == ys@[j],
                decreases xs@.len() - i,
            {
                if xs[i] != ys[i] {
                    return false;
                }
                i = i + 1;
            }
            proof {
                assert(xs@ =~= ys@);
            }
            true
        },
        _ => false,
    }
}

/// Structural equality of two element vectors, in order.
pub fn values_eq(xs: &Vec<Value>, ys: &Vec<Value>) -> (r: bool)
    ensures
        r == (values_view(xs@) == values_view(ys@)),
    decreases *xs, 1int,
{
    proof {
        lemma_values_view(xs@);
        lemma_values_view(ys@);
    }
    if xs.len() != ys.len() {
        return false;
    }
    let mut i: usize = 0;
    while i < xs.len()
        invariant
            i <= xs.len(),
            xs@.len() == ys@.len(),
            values_view(xs@).len() == xs@.len(),
            values_view(ys@).len() == ys@.len(),
            forall|j: int| 0 <= j < xs@.len() ==> values_view(xs@)[j] == #[trigger] xs@[j]@,
            forall|j: int| 0 <= j < ys@.len() ==> values_view(ys@)[j] == #[trigger] ys@[j]@,
            forall|j: int| 0 <= j < i ==> xs@[j]@ == ys@[j]@,
        decreases xs@.len() - i,
    {
        let vx = &xs[i];
        let vy = &ys[i];
        if !value_eq(vx, vy) {
            return false;
        }
        i = i + 1;
    }
    proof {
        assert forall|j: int|
            0 <= j < xs@.len() implies values_view(xs@)[j] == values_view(ys@)[j] by {
            assert(xs@[j]@ == ys@[j]@);
        }
        assert(values_view(xs@) =~= values_view(ys@));
    }
    true
}

/// Structural equality of two entry vectors, key for key and in order.
pub fn entries_eq(xs: &Vec<(String, Value)>, ys: &Vec<(String, Value)>) -> (r: bool)
    ensures
        r == (entries_view(xs@) == entries_view(ys@)),
    decreases *xs, 1int,
{
    proof {
        lemma_entries_view(xs@);
        lemma_entries_view(ys@);
    }
    if xs.len() != ys.len() {
        return false;
    }
    let mut i: usize = 0;
    while i < xs.len()
        invariant
            i <= xs.len(),
            xs@.len() == ys@.len(),
            entries_view(xs@).len() == xs@.len(),
            entries_view(ys@).len() == ys@.len(),
            forall|j: int| 0 <= j < xs@.len() ==> entries_view(xs@)[j] == entry_view(
                #[trigger] xs@[j],
            ),
            forall|j: int| 0 <= j < ys@.len() ==> entries_view(ys@)[j] == entry_view(
                #[trigger] ys@[j],
            ),
            forall|j: int| 0 <= j < i ==> entry_view(xs@[j]) == entry_view(ys@[j]),
        decreases xs@.len() - i,
    {
        let ex = &xs[i];
        let ey = &ys[i];
        if !entry_eq(ex, ey) {
            return false;
        }
        i = i + 1;
    }
    proof {
        assert forall|j: int|
            0 <= j < xs@.len() implies entries_view(xs@)[j] == entries_view(ys@)[j] by {
            assert(entry_view(xs@[j]) == entry_view(ys@[j]));
        }
        assert(entries_view(xs@) =~= entries_view(ys@));
    }
    true
}

/// Structural equality of two object entries.
pub fn entry_eq(x: &(String, Value), y: &(String, Value)) -> (r: bool)
    ensures
        r == (entry_view(*x) == entry_view(*y)),
    decreases *x, 2int,
{
    if !(x.0 == y.0) {
        return false;
    }
    value_eq(&x.1, &y.1)
}

/// The index of the first entry whose key equals `k`, searching in order.
pub fn find_entry(es: &Vec<(String, Value)>, k: &String) -> (r: Option<usize>)
    ensures
        match r {
            Some(i) => i < es@.len() && es@[i as int].0@ == k@ && forall|j: int|
                0 <= j < i ==> es@[j].0@ != k@,
            None => forall|j: int| 0 <= j < es@.len() ==> es@[j].0@ != k@,
        },
{
    let mut i: usize = 0;
    while i < es.len()
        invariant
            i <= es@.len(),
            forall|j: int| 0 <= j < i ==> es@[j].0@ != k@,
        decreases es@.len() - i,
    {
        if es[i].0 == *k {
            return Some(i);
        }
        i = i + 1;
    }
    None
}

} // verus!
