use crate::coerce::coerce_value;
use crate::coerce::sp_coerce;
use crate::coerce::sp_coercible;
use crate::coerce::sp_coercible_elems;
use crate::coerce::sp_coercible_entry;
use crate::coerce::sp_coercible_fields;
use crate::error::Error;
use crate::infer::infer_value;
use crate::infer::sp_infer;
use crate::schema::fields_view;
use crate::schema::lemma_fields_view;
use crate::schema::DataType;
use crate::schema::Field;
use crate::schema::FieldView;
use crate::unify::coerce_data_type;
use crate::unify::sp_unify_all;
use crate::value::entries_view;
use crate::value::entry_view;
use crate::value::find_entry;
use crate::value::has_key;
use crate::value::key_index;
use crate::value::lemma_entries_view;
use crate::value::lemma_key_index;
use crate::value::lemma_values_view;
use crate::value::value_wf;
use crate::value::values_view;
use crate::value::Value;
use crate::value::ValueView;
use vstd::prelude::*;

verus! {

/// The contract every record frontend implements. A reader stands for a
/// logical sequence of records with a cursor: `next` produces the record
/// under the cursor and advances it, and `reset` rewinds the cursor to
/// the start without touching the sequence — so replaying after a reset
/// yields the same logical values as the first pass.
pub trait ValueReader: Sized {
    /// The logical record sequence the source holds, up to the first
    /// malformed point.
    spec fn records(&self) -> Seq<ValueView>;

    /// How many records the cursor has passed.
    spec fn pos(&self) -> int;

    /// Whether the source ends cleanly after its last record, rather
    /// than in malformed bytes.
    spec fn complete(&self) -> bool;

    /// The reader's own invariant.
    spec fn wf(&self) -> bool;

    /// The next record, or the end of the stream, or the frontend's own
    /// error at the malformed point.
    fn next(&mut self) -> (r: Result<Option<Value>, Error>)
        requires
            old(self).wf(),
        ensures
            final(self).wf(),
            final(self).records() == old(self).records(),
            final(self).complete() == old(self).complete(),
            match r {
                Ok(Some(v)) => 0 <= old(self).pos() < old(self).records().len() && v@ == old(
                    self,
                ).records()[old(self).pos()] && value_wf(v@) && final(self).pos() == old(
                    self,
                ).pos() + 1,
                Ok(None) => old(self).pos() >= old(self).records().len() && old(self).complete()
                    && final(self).pos() == old(self).pos(),
                Err(_) => old(self).pos() >= old(self).records().len() && !old(self).complete(),
            },
    ;

    /// Rewind to the first record; the logical sequence is unchanged.
    fn reset(&mut self)
        requires
            old(self).wf(),
        ensures
            final(self).wf(),
            final(self).records() == old(self).records(),
            final(self).complete() == old(self).complete(),
            final(self).pos() == 0,
    ;
}

/// A frontend over records already materialized in memory: the simplest
/// adapter, and the reference implementation of the reader contract.
pub struct VecReader {
    pub items: Vec<Value>,
    pub index: usize,
}

impl VecReader {
    /// A reader over a vector of well-formed records.
    pub fn new(items: Vec<Value>) -> (r: VecReader)
        requires
            forall|j: int| 0 <= j < items@.len() ==> value_wf(#[trigger] items@[j]@),
        ensures
            r.wf(),
            r.records() == values_view(items@),
            r.pos() == 0,
            r.complete(),
    {
        let r = VecReader { items, index: 0 };
        proof {
            lemma_values_view(r.items@);
        }
        r
    }
}

impl ValueReader for VecReader {
    open spec fn records(&self) -> Seq<ValueView> {
        values_view(self.items@)
    }

    open spec fn pos(&self) -> int {
        self.index as int
    }

    open spec fn complete(&self) -> bool {
        true
    }

    open spec fn wf(&self) -> bool {
        self.index <= self.items@.len() && forall|j: int|
            0 <= j < self.items@.len() ==> value_wf(#[trigger] self.items@[j]@)
    }

    fn next(&mut self) -> (r: Result<Option<Value>, Error>) {
        proof {
            lemma_values_view(self.items@);
        }
        if self.index < self.items.len() {
            let item = &self.items[self.index];
            let v = item.deep_clone();
            self.index = self.index + 1;
            Ok(Some(v))
        } else {
            Ok(None)
        }
    }

    fn reset(&mut self) {
        self.index = 0;
    }
}

/// Whether every element of an array is coercible, as
/// `sp_coercible_elems` describes it.
fn elems_coercible(vs: &Vec<Value>, t: &DataType, rec: bool) -> (r: bool)
    ensures
        r == sp_coercible_elems(values_view(vs@), t@, rec),
    decreases *vs, 1int, 0int,
{
    proof {
        lemma_values_view(vs@);
    }
    let mut i: usize = 0;
    while i < vs.len()
        invariant
            i <= vs@.len(),
            values_view(vs@).len() == vs@.len(),
            forall|j: int| 0 <= j < vs@.len() ==> values_view(vs@)[j] == #[trigger] vs@[j]@,
            forall|j: int| 0 <= j < i ==> sp_coercible(#[trigger] values_view(vs@)[j], t@, rec),
        decreases vs@.len() - i,
    {
        let item = &vs[i];
        if !is_coercible(item, t, rec) {
            proof {
                assert(!sp_coercible(values_view(vs@)[i as int], t@, rec));
            }
            return false;
        }
        proof {
            assert(sp_coercible(values_view(vs@)[i as int], t@, rec));
        }
        i = i + 1;
    }
    true
}

/// Whether one carried entry's value is coercible, as
/// `sp_coercible_entry` describes it.
fn entry_coercible(e: &(String, Value), t: &DataType, rec: bool) -> (r: bool)
    ensures
        r == sp_coercible_entry(entry_view(*e), t@, rec),
    decreases *e, 3int, 0int,
{
    is_coercible(&e.1, t, rec)
}

/// Whether every target field's carried value is coercible, as
/// `sp_coercible_fields` describes it.
fn fields_coercible(es: &Vec<(String, Value)>, fs: &Vec<Field>, rec: bool) -> (r: bool)
    ensures
        r == sp_coercible_fields(entries_view(es@), fields_view(fs@), rec),
    decreases *es, 1int, 0int,
{
    let ghost esv = entries_view(es@);
    let ghost fsv = fields_view(fs@);
    proof {
        lemma_entries_view(es@);
        lemma_fields_view(fs@);
    }
    let mut k: usize = 0;
    while k < fs.len()
        invariant
            k <= fs@.len(),
            esv == entries_view(es@),
            esv.len() == es@.len(),
            fsv == fields_view(fs@),
            fsv.len() == fs@.len(),
            forall|j: int| 0 <= j < fs@.len() ==> fsv[j] == #[trigger] fs@[j]@,
            forall|j: int| 0 <= j < es@.len() ==> esv[j] == entry_view(#[trigger] es@[j]),
            forall|j: int|
                0 <= j < k ==> {
                    let i = key_index(esv, (#[trigger] fsv[j]).name);
                    0 <= i < esv.len() ==> sp_coercible_entry(esv[i], fsv[j].data_type, rec)
                },
        decreases fs@.len() - k,
    {
        let f = &fs[k];
        proof {
            assert(fsv[k as int] == fs@[k as int]@);
            lemma_key_index(esv, fsv[k as int].name);
        }
        let found = find_entry(es, &f.name);
        let ghost ki = key_index(esv, fsv[k as int].name);
        proof {
            match found {
                Some(i) => {
                    assert(esv[i as int] == entry_view(es@[i as int]));
                    assert(has_key(esv, fsv[k as int].name));
                    assert forall|j: int| 0 <= j < i implies esv[j].0 != fsv[k as int].name by {
                        assert(esv[j] == entry_view(es@[j]));
                    }
                    assert(ki == i as int) by {
                        if ki < i as int {
                            assert(esv[ki].0 == fsv[k as int].name);
                        }
                        if ki > i as int {
                            assert(esv[i as int].0 != fsv[k as int].name);
                        }
                    }
                },
                None => {
                    assert forall|j: int| 0 <= j < esv.len() implies esv[j].0 != fsv[k as int].name by {
                        assert(esv[j] == entry_view(es@[j]));
                    }
                    assert(!has_key(esv, fsv[k as int].name));
                    assert(ki == -1);
                },
            }
        }
        match found {
            Some(i) => {
                let entry = &es[i];
                if !entry_coercible(entry, &f.data_type, rec) {
                    proof {
                        assert(!sp_coercible_entry(esv[ki], fsv[k as int].data_type, rec));
                        assert(!sp_coercible_fields(esv, fsv, rec));
                    }
                    return false;
                }
            },
            None => {
            },
        }
        k = k + 1;
    }
    true
}

/// Whether a value can be driven onto a target type, as `sp_coercible`
/// describes it.
pub fn is_coercible(v: &Value, t: &DataType, rec: bool) -> (r: bool)
    ensures
        r == sp_coercible(v@, t@, rec),
    decreases *v, 2int, 0int,
{
    match (v, t) {
        (Value::Null, _) => true,
        (Value::Bool(_), DataType::Int) => true,
        (Value::Bool(_), DataType::Bool) => true,
        (Value::Int(_), DataType::Int) => true,
        (Value::Int(_), DataType::Float) => true,
        (Value::Int(_), DataType::String) => true,
        (Value::Float(_), DataType::Float) => true,
        (Value::Float(_), DataType::String) => true,
        (Value::String(_), DataType::String) => true,
        (Value::String(_), DataType::Int) => true,
        (Value::Binary(_), DataType::Binary) => true,
        (Value::Array(vs), DataType::Array(et)) => {
            proof {
                lemma_values_view(vs@);
            }
            elems_coercible(vs, et, rec)
        },
        (Value::Object(es), DataType::Object(fs)) => {
            if !rec {
                true
            } else {
                proof {
                    lemma_entries_view(es@);
                    lemma_fields_view(fs@);
                }
                fields_coercible(es, fs, rec)
            }
        },
        (_, DataType::String) => true,
        (_, _) => false,
    }
}

/// The two-pass schema discovery: fold the inferred type of every record
/// through unification, then rewind. An empty stream is a hard input
/// error, not an empty schema.
pub fn infer_schema<R: ValueReader>(reader: &mut R) -> (r: Result<DataType, Error>)
    requires
        old(reader).wf(),
        old(reader).pos() == 0,
    ensures
        final(reader).wf(),
        final(reader).records() == old(reader).records(),
        final(reader).complete() == old(reader).complete(),
        match r {
            Ok(dt) => old(reader).complete() && old(reader).records().len() > 0 && dt@
                == sp_unify_all(old(reader).records().map_values(|v: ValueView| sp_infer(v)))
                && final(reader).pos() == 0,
            Err(_) => !(old(reader).complete() && old(reader).records().len() > 0),
        },
{
    let ghost recs = old(reader).records();
    let ghost types = recs.map_values(|v: ValueView| sp_infer(v));
    let mut acc = DataType::Null;
    let mut saw_any = false;
    proof {
        assert(types.take(0) =~= Seq::<crate::schema::TypeView>::empty());
    }
    loop
        invariant
            reader.wf(),
            recs == old(reader).records(),
            reader.records() == recs,
            reader.complete() == old(reader).complete(),
            0 <= reader.pos() <= recs.len(),
            types == recs.map_values(|v: ValueView| sp_infer(v)),
            types.len() == recs.len(),
            acc@ == sp_unify_all(types.take(reader.pos())),
            saw_any <==> reader.pos() > 0,
        decreases recs.len() - reader.pos(),
    {
        let ghost p = reader.pos();
        match reader.next() {
            Ok(Some(v)) => {
                let dt = infer_value(&v);
                let next_acc = coerce_data_type(&acc, &dt);
                proof {
                    assert(types[p] == sp_infer(recs[p]));
                    assert(types.take(p + 1).drop_last() =~= types.take(p));
                    assert(types.take(p + 1).last() == types[p]);
                }
                acc = next_acc;
                saw_any = true;
            },
            Ok(None) => {
                proof {
                    assert(p == recs.len());
                }
                reader.reset();
                if !saw_any {
                    return Err(Error::InputError("No records found.".to_owned()));
                }
                proof {
                    assert(types.take(recs.len() as int) =~= types);
                }
                return Ok(acc);
            },
            Err(e) => {
                return Err(e);
            },
        }
    }
}

/// One row projected onto a schema: each target field's value looked up
/// by name and coerced non-recursively, `Null` where the record lacks
/// the field; nothing when a value cannot be coerced at all or a strict
/// parse fails.
pub open spec fn sp_project(es: Seq<(Seq<char>, ValueView)>, fs: Seq<FieldView>) -> Option<
    Seq<ValueView>,
>
    decreases fs.len(),
{
    if fs.len() == 0 {
        Some(Seq::empty())
    } else {
        let f = fs[0];
        let i = key_index(es, f.name);
        let head = if 0 <= i < es.len() {
            if sp_coercible(es[i].1, f.data_type, false) {
                sp_coerce(es[i].1, f.data_type, false)
            } else {
                Option::None
            }
        } else {
            Some(ValueView::Null)
        };
        match head {
            None => None,
            Some(w) => match sp_project(es, fs.drop_first()) {
                None => None,
                Some(ws) => Some(seq![w] + ws),
            },
        }
    }
}

/// The schema-projecting row iterator: re-streams the records of a
/// reader and yields per-record rows of coerced values in schema field
/// order.
pub struct RowIterator<R> {
    pub reader: R,
    pub fields: Vec<Field>,
}

impl<R: ValueReader> RowIterator<R> {
    /// A row iterator over a reader and a discovered field list.
    pub fn new(reader: R, fields: Vec<Field>) -> (r: RowIterator<R>)
        ensures
            r.reader == reader,
            r.fields == fields,
    {
        RowIterator { reader, fields }
    }

    /// The schema's field list, in output column order.
    pub fn fields(&self) -> (r: &Vec<Field>)
        ensures
            r == &self.fields,
    {
        &self.fields
    }

    /// Rewind the underlying reader to the first record.
    pub fn reset(&mut self)
        requires
            old(self).reader.wf(),
        ensures
            final(self).reader.wf(),
            final(self).reader.records() == old(self).reader.records(),
            final(self).reader.complete() == old(self).reader.complete(),
            final(self).reader.pos() == 0,
            final(self).fields == old(self).fields,
    {
        self.reader.reset()
    }

    /// The next projected row, or the end of the stream. An error comes
    /// from the frontend's malformed point, from a record that is not an
    /// object, or from a field value that cannot be coerced onto its
    /// declared type.
    pub fn next(&mut self) -> (r: Result<Option<Vec<Value>>, Error>)
        requires
            old(self).reader.wf(),
        ensures
            final(self).reader.wf(),
            final(self).reader.records() == old(self).reader.records(),
            final(self).reader.complete() == old(self).reader.complete(),
            final(self).fields == old(self).fields,
            match r {
                Ok(Some(row)) => {
                    let recs = old(self).reader.records();
                    let p = old(self).reader.pos();
                    &&& 0 <= p < recs.len()
                    &&& recs[p] is Object
                    &&& sp_project(recs[p]->Object_0, fields_view(old(self).fields@)) == Some(
                        values_view(row@),
                    )
                    &&& final(self).reader.pos() == p + 1
                },
                Ok(None) => old(self).reader.pos() >= old(self).reader.records().len() && old(
                    self,
                ).reader.complete() && final(self).reader.pos() == old(self).reader.pos(),
                Err(_) => {
                    let recs = old(self).reader.records();
                    let p = old(self).reader.pos();
                    ||| (p >= recs.len() && !old(self).reader.complete())
                    ||| (0 <= p < recs.len() && !(recs[p] is Object))
                    ||| (0 <= p < recs.len() && recs[p] is Object && sp_project(
                        recs[p]->Object_0,
                        fields_view(old(self).fields@),
                    ) is None)
                },
            },
    {
        match self.reader.next() {
            Ok(Some(v)) => {
                match v {
                    Value::Object(es) => {
                        proof {
                            lemma_entries_view(es@);
                        }
                        match project_row(&es, &self.fields) {
                            Ok(row) => Ok(Some(row)),
                            Err(e) => Err(e),
                        }
                    },
                    _ => Err(Error::CustomError("Expected object".to_owned())),
                }
            },
            Ok(None) => Ok(None),
            Err(e) => Err(e),
        }
    }
}

/// One record's entries projected onto a field list, as `sp_project`
/// describes it.
fn project_row(es: &Vec<(String, Value)>, fs: &Vec<Field>) -> (r: Result<Vec<Value>, Error>)
    ensures
        match r {
            Ok(row) => sp_project(entries_view(es@), fields_view(fs@)) == Some(values_view(row@)),
            Err(_) => sp_project(entries_view(es@), fields_view(fs@)) is None,
        },
{
    let ghost esv = entries_view(es@);
    let ghost fsv = fields_view(fs@);
    let mut out: Vec<Value> = Vec::new();
    let mut k: usize = 0;
    proof {
        lemma_entries_view(es@);
        lemma_fields_view(fs@);
        lemma_values_view(out@);
        assert(fsv.skip(0) =~= fsv);
    }
    while k < fs.len()
        invariant
            k <= fs@.len(),
            esv == entries_view(es@),
            esv.len() == es@.len(),
            fsv == fields_view(fs@),
            fsv.len() == fs@.len(),
            forall|j: int| 0 <= j < fs@.len() ==> fsv[j] == #[trigger] fs@[j]@,
            forall|j: int| 0 <= j < es@.len() ==> esv[j] == entry_view(#[trigger] es@[j]),
            ({
                let done = sp_project(esv, fsv.skip(k as int));
                match sp_project(esv, fsv) {
                    Some(whole) => done matches Some(ws) && whole == values_view(out@) + ws,
                    None => done is None,
                }
            }),
        decreases fs@.len() - k,
    {
        let f = &fs[k];
        let ghost tail = fsv.skip(k as int);
        proof {
            assert(tail[0] == fsv[k as int]);
            assert(tail[0] == fs@[k as int]@);
            assert(tail.drop_first() =~= fsv.skip(k as int + 1));
            lemma_key_index(esv, tail[0].name);
        }
        let found = find_entry(es, &f.name);
        let ghost ki = key_index(esv, tail[0].name);
        proof {
            match found {
                Some(i) => {
                    assert(esv[i as int] == entry_view(es@[i as int]));
                    assert(has_key(esv, tail[0].name));
                    assert forall|j: int| 0 <= j < i implies esv[j].0 != tail[0].name by {
                        assert(esv[j] == entry_view(es@[j]));
                    }
                    assert(ki == i as int) by {
                        if ki < i as int {
                            assert(esv[ki].0 == tail[0].name);
                        }
                        if ki > i as int {
                            assert(esv[i as int].0 != tail[0].name);
                        }
                    }
                },
                None => {
                    assert forall|j: int| 0 <= j < esv.len() implies esv[j].0 != tail[0].name by {
                        assert(esv[j] == entry_view(es@[j]));
                    }
                    assert(!has_key(esv, tail[0].name));
                    assert(ki == -1);
                },
            }
        }
        let coerced: Value = match found {
            Some(i) => {
                let entry = &es[i];
                if !is_coercible(&entry.1, &f.data_type, false) {
                    proof {
                        assert(sp_project(esv, tail) is None);
                    }
                    return Err(Error::CustomError("cannot coerce value onto schema".to_owned()));
                }
                match coerce_value(&entry.1, &f.data_type, false) {
                    Ok(w) => {
                        proof {
                            assert(sp_coerce(esv[ki].1, tail[0].data_type, false) == Some(w@));
                        }
                        w
                    },
                    Err(e) => {
                        proof {
                            assert(sp_coerce(esv[ki].1, tail[0].data_type, false) is None);
                            assert(sp_project(esv, tail) is None);
                        }
                        return Err(e);
                    },
                }
            },
            None => Value::Null,
        };
        let ghost out_snap = out@;
        out.push(coerced);
        proof {
            lemma_values_view(out@);
            crate::value::lemma_values_view(out_snap);
            assert(out@.drop_last() =~= out_snap);
            assert(values_view(out@) =~= values_view(out_snap).push(coerced@));
            let rest = sp_project(esv, tail.drop_first());
            assert(sp_project(esv, tail) == (match rest {
                Some(ws) => Some(seq![coerced@] + ws),
                None => Option::<Seq<ValueView>>::None,
            }));
            if rest is Some {
                assert(values_view(out@) + rest->Some_0 =~= values_view(out_snap) + (seq![coerced@]
                    + rest->Some_0));
            }
        }
        k = k + 1;
    }
    proof {
        assert(fsv.skip(fs@.len() as int) =~= Seq::<FieldView>::empty());
        assert(sp_project(esv, Seq::<FieldView>::empty()) == Some(Seq::<ValueView>::empty()));
        assert(values_view(out@) + Seq::<ValueView>::empty() =~= values_view(out@));
    }
    Ok(out)
}

/// The discovered schema's field list and a row iterator over the same
/// reader: schema discovery must see a top-level object type.
pub fn into_rows<R: ValueReader>(reader: R) -> (r: Result<RowIterator<R>, Error>)
    requires
        reader.wf(),
        reader.pos() == 0,
    ensures
        match r {
            Ok(it) => it.reader.wf() && it.reader.records() == reader.records()
                && it.reader.complete() == reader.complete() && it.reader.pos() == 0
                && reader.complete() && reader.records().len() > 0 && sp_unify_all(
                reader.records().map_values(|v: ValueView| sp_infer(v)),
            ) == crate::schema::TypeView::Object(fields_view(it.fields@)),
            Err(_) => !(reader.complete() && reader.records().len() > 0) || !(sp_unify_all(
                reader.records().map_values(|v: ValueView| sp_infer(v)),
            ) is Object),
        },
{
    let mut reader = reader;
    match infer_schema(&mut reader) {
        Ok(dt) => {
            match dt {
                DataType::Object(fields) => {
                    proof {
                        lemma_fields_view(fields@);
                    }
                    Ok(RowIterator { reader, fields })
                },
                _ => Err(Error::CustomError("Expected an object".to_owned())),
            }
        },
        Err(e) => Err(e),
    }
}

} // verus!
