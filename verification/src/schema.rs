use vstd::prelude::*;

verus! {

/// The mathematical shape of a [`DataType`].
#[verifier::ext_equal]
pub enum TypeView {
    Null,
    Bool,
    String,
    Binary,
    Int,
    Float,
    Array(Box<TypeView>),
    Object(Seq<FieldView>),
}

/// The mathematical shape of a [`Field`].
#[verifier::ext_equal]
pub struct FieldView {
    pub name: Seq<char>,
    pub data_type: TypeView,
    pub is_nullable: bool,
    pub meta: MetaView,
}

/// The mathematical shape of a [`FieldMeta`].
#[verifier::ext_equal]
pub enum MetaView {
    Absent,
    Json(Seq<Seq<char>>),
}

/// The schema analogue of [`crate::value::Value`]: every value variant maps
/// to exactly one type variant except `Null`, which is compatible with
/// every type.
pub enum DataType {
    Null,
    Bool,
    String,
    Binary,
    Int,
    Float,
    Array(Box<DataType>),
    Object(Vec<Field>),
}

/// Provenance of a field: either absent, or the path of keys a flattened
/// field was synthesized from.
pub enum FieldMeta {
    Absent,
    Json(Vec<String>),
}

/// One named, typed, possibly nullable column of a schema.
pub struct Field {
    pub name: String,
    pub data_type: DataType,
    pub is_nullable: bool,
    pub meta: FieldMeta,
}

/// An ordered field list; field order defines output column order.
pub type Schema = Vec<Field>;

/// The view of a data type, variant by variant.
pub open spec fn type_view(d: DataType) -> TypeView
    decreases d, 0int,
{
    match d {
        DataType::Null => TypeView::Null,
        DataType::Bool => TypeView::Bool,
        DataType::String => TypeView::String,
        DataType::Binary => TypeView::Binary,
        DataType::Int => TypeView::Int,
        DataType::Float => TypeView::Float,
        DataType::Array(t) => TypeView::Array(Box::new(type_view(*t))),
        DataType::Object(fs) => TypeView::Object(fields_view(fs@)),
    }
}

impl View for DataType {
    type V = TypeView;

    open spec fn view(&self) -> TypeView
        decreases self, 1int,
    {
        type_view(*self)
    }
}

impl View for Field {
    type V = FieldView;

    open spec fn view(&self) -> FieldView
        decreases self, 2int,
    {
        FieldView {
            name: self.name@,
            data_type: self.data_type@,
            is_nullable: self.is_nullable,
            meta: self.meta@,
        }
    }
}

impl View for FieldMeta {
    type V = MetaView;

    open spec fn view(&self) -> MetaView {
        match self {
            FieldMeta::Absent => MetaView::Absent,
            FieldMeta::Json(path) => MetaView::Json(Seq::new(path.len() as nat, |i: int| path[i]@)),
        }
    }
}

/// The view of a sequence of fields, field by field.
pub open spec fn fields_view(fs: Seq<Field>) -> Seq<FieldView>
    decreases fs, 0int,
{
    if fs.len() == 0 {
        Seq::empty()
    } else {
        seq![fs[0]@] + fields_view(fs.drop_first())
    }
}

/// `fields_view` maps the view over the fields, index by index.
pub proof fn lemma_fields_view(fs: Seq<Field>)
    ensures
        fields_view(fs).len() == fs.len(),
        forall|i: int|
            #![trigger fields_view(fs)[i]]
            #![trigger fs[i]@]
            0 <= i < fs.len() ==> fields_view(fs)[i] == fs[i]@,
    decreases fs,
{
    if fs.len() > 0 {
        lemma_fields_view(fs.drop_first());
        assert(fields_view(fs) == seq![fs[0]@] + fields_view(fs.drop_first()));
        assert forall|i: int| 0 <= i < fs.len() implies fields_view(fs)[i] == #[trigger] fs[i]@ by {
            if i > 0 {
                assert(fs.drop_first()[i - 1] == fs[i]);
                assert(fields_view(fs)[i] == fields_view(fs.drop_first())[i - 1]);
            }
        }
    }
}

/// The length of a mapped field view sequence.
pub broadcast proof fn lemma_fields_view_len(fs: Seq<Field>)
    ensures
        #[trigger] fields_view(fs).len() == fs.len(),
{
    lemma_fields_view(fs);
}

/// An indexed field of a mapped field view sequence.
pub broadcast proof fn lemma_fields_view_index(fs: Seq<Field>, i: int)
    requires
        0 <= i < fs.len(),
    ensures
        #[trigger] fields_view(fs)[i] == fs[i]@,
{
    lemma_fields_view(fs);
}

/// No two fields share a name.
pub open spec fn distinct_field_names(fs: Seq<FieldView>) -> bool {
    forall|i: int, j: int| 0 <= i < j < fs.len() ==> fs[i].name != fs[j].name
}

/// Well-formedness of a type: every object in the tree has unique field
/// names.
pub open spec fn type_wf(t: TypeView) -> bool
    decreases t, 1int,
{
    match t {
        TypeView::Array(et) => type_wf(*et),
        TypeView::Object(fs) => distinct_field_names(fs) && forall|i: int|
            0 <= i < fs.len() ==> field_wf(#[trigger] fs[i]),
        _ => true,
    }
}

/// Well-formedness of one field: its type is well formed.
pub open spec fn field_wf(f: FieldView) -> bool
    decreases f, 2int,
{
    type_wf(f.data_type)
}

/// A structurally identical copy of a data type.
pub fn dt_clone(d: &DataType) -> (r: DataType)
    ensures
        r@ == d@,
    decreases d, 0int,
{
    match d {
        DataType::Null => DataType::Null,
        DataType::Bool => DataType::Bool,
        DataType::String => DataType::String,
        DataType::Binary => DataType::Binary,
        DataType::Int => DataType::Int,
        DataType::Float => DataType::Float,
        DataType::Array(t) => DataType::Array(Box::new(dt_clone(t))),
        DataType::Object(fs) => DataType::Object(fields_clone(fs)),
    }
}

/// A structurally identical copy of a field list.
pub fn fields_clone(fs: &Vec<Field>) -> (r: Vec<Field>)
    ensures
        r@.len() == fs@.len(),
        forall|j: int| 0 <= j < fs@.len() ==> r@[j]@ == fs@[j]@,
        fields_view(r@) == fields_view(fs@),
    decreases *fs, 1int,
{
    let mut out: Vec<Field> = Vec::new();
    let mut i: usize = 0;
    while i < fs.len()
        invariant
            i <= fs.len(),
            out@.len() == i as int,
            forall|j: int| 0 <= j < i ==> out@[j]@ == fs@[j]@,
        decreases fs@.len() - i,
    {
        let f = &fs[i];
        out.push(field_clone(f));
        i = i + 1;
    }
    proof {
        lemma_fields_view(out@);
        lemma_fields_view(fs@);
        assert forall|j: int|
            0 <= j < fs@.len() implies fields_view(out@)[j] == fields_view(fs@)[j] by {
            assert(out@[j]@ == fs@[j]@);
        }
        assert(fields_view(out@) =~= fields_view(fs@));
    }
    out
}

/// A structurally identical copy of a field.
pub fn field_clone(f: &Field) -> (r: Field)
    ensures
        r@ == f@,
    decreases *f, 2int,
{
    Field {
        name: f.name.clone(),
        data_type: dt_clone(&f.data_type),
        is_nullable: f.is_nullable,
        meta: meta_clone(&f.meta),
    }
}

/// A structurally identical copy of a field provenance.
pub fn meta_clone(m: &FieldMeta) -> (r: FieldMeta)
    ensures
        r@ == m@,
{
    match m {
        FieldMeta::Absent => FieldMeta::Absent,
        FieldMeta::Json(path) => {
            let mut out: Vec<String> = Vec::new();
            let mut i: usize = 0;
            while i < path.len()
                invariant
                    i <= path.len(),
                    out@.len() == i as int,
                    forall|j: int| 0 <= j < i ==> out@[j]@ == path@[j]@,
                decreases path@.len() - i,
            {
                out.push(path[i].clone());
                i = i + 1;
            }
            let r = FieldMeta::Json(out);
            proof {
                assert(Seq::new(out@.len(), |i: int| out@[i]@) =~= Seq::new(
                    path@.len(),
                    |i: int| path@[i]@,
                ));
            }
            r
        },
    }
}

/// Structural equality of two data types, nullability and provenance
/// included.
pub fn dt_eq(a: &DataType, b: &DataType) -> (r: bool)
    ensures
        r == (a@ == b@),
    decreases a, 0int,
{
    match (a, b) {
        (DataType::Null, DataType::Null) => true,
        (DataType::Bool, DataType::Bool) => true,
        (DataType::String, DataType::String) => true,
        (DataType::Binary, DataType::Binary) => true,
        (DataType::Int, DataType::Int) => true,
        (DataType::Float, DataType::Float) => true,
        (DataType::Array(x), DataType::Array(y)) => dt_eq(x, y),
        (DataType::Object(xs), DataType::Object(ys)) => fields_eq(xs, ys),
        _ => false,
    }
}

/// Structural equality of two field lists, in order.
pub fn fields_eq(xs: &Vec<Field>, ys: &Vec<Field>) -> (r: bool)
    ensures
        r == (fields_view(xs@) == fields_view(ys@)),
    decreases *xs, 1int,
{
    proof {
        lemma_fields_view(xs@);
        lemma_fields_view(ys@);
    }
    if xs.len() != ys.len() {
        return false;
    }
    let mut i: usize = 0;
    while i < xs.len()
        invariant
            i <= xs.len(),
            xs@.len() == ys@.len(),
            fields_view(xs@).len() == xs@.len(),
            fields_view(ys@).len() == ys@.len(),
            forall|j: int| 0 <= j < xs@.len() ==> fields_view(xs@)[j] == #[trigger] xs@[j]@,
            forall|j: int| 0 <= j < ys@.len() ==> fields_view(ys@)[j] == #[trigger] ys@[j]@,
            forall|j: int| 0 <= j < i ==> xs@[j]@ == ys@[j]@,
        decreases xs@.len() - i,
    {
        let fx = &xs[i];
        let fy = &ys[i];
        if !field_eq(fx, fy) {
            return false;
        }
        i = i + 1;
    }
    proof {
        assert forall|j: int|
            0 <= j < xs@.len() implies fields_view(xs@)[j] == fields_view(ys@)[j] by {
            assert(xs@[j]@ == ys@[j]@);
        }
        assert(fields_view(xs@) =~= fields_view(ys@));
    }
    true
}

/// Structural equality of two fields.
pub fn field_eq(x: &Field, y: &Field) -> (r: bool)
    ensures
        r == (x@ == y@),
    decreases *x, 2int,
{
    if !(x.name == y.name) {
        return false;
    }
    if x.is_nullable != y.is_nullable {
        return false;
    }
    if !meta_eq(&x.meta, &y.meta) {
        return false;
    }
    dt_eq(&x.data_type, &y.data_type)
}

/// Structural equality of two field provenances.
pub fn meta_eq(x: &FieldMeta, y: &FieldMeta) -> (r: bool)
    ensures
        r == (x@ == y@),
{
    match (x, y) {
        (FieldMeta::Absent, FieldMeta::Absent) => true,
        (FieldMeta::Json(xs), FieldMeta::Json(ys)) => {
            if xs.len() != ys.len() {
                proof {
                    assert(x@->Json_0.len() != y@->Json_0.len());
                }
                return false;
            }
            let mut i: usize = 0;
            while i < xs.len()
                invariant
                    i <= xs.len(),
                    xs@.len() == ys@.len(),
                    x@ == MetaView::Json(Seq::new(xs@.len(), |k: int| xs@[k]@)),
                    y@ == MetaView::Json(Seq::new(ys@.len(), |k: int| ys@[k]@)),
                    forall|j: int| 0 <= j < i ==> xs@[j]@ == ys@[j]@,
                decreases xs@.len() - i,
            {
                if !(xs[i] == ys[i]) {
                    proof {
                        assert(x@->Json_0[i as int] != y@->Json_0[i as int]);
                    }
                    return false;
                }
                i = i + 1;
            }
            proof {
                assert(x@->Json_0 =~= y@->Json_0);
            }
            true
        },
        _ => false,
    }
}

impl DataType {
    /// The fields of an object type, or an input error for any other
    /// variant.
    pub fn unwrap_object(&self) -> (r: Result<&Vec<Field>, crate::error::Error>)
        ensures
            match r {
                Ok(fs) => self@ == TypeView::Object(fields_view(fs@)),
                Err(_) => !(self@ is Object),
            },
    {
        match self {
            DataType::Object(fs) => Ok(fs),
            _ => Err(crate::error::Error::CustomError("Expected an object".to_owned())),
        }
    }
}

impl Field {
    /// A field with explicit provenance.
    pub fn new_with_meta(name: String, data_type: DataType, is_nullable: bool, meta: FieldMeta) -> (f:
        Field)
        ensures
            f@ == (FieldView { name: name@, data_type: data_type@, is_nullable, meta: meta@ }),
    {
        Field { name, data_type, is_nullable, meta }
    }

    /// A field without provenance.
    pub fn new(name: String, data_type: DataType, is_nullable: bool) -> (f: Field)
        ensures
            f@ == (FieldView {
                name: name@,
                data_type: data_type@,
                is_nullable,
                meta: MetaView::Absent,
            }),
    {
        Field::new_with_meta(name, data_type, is_nullable, FieldMeta::Absent)
    }

    /// The type of the field.
    pub fn data_type(&self) -> (t: &DataType)
        ensures
            t@ == self@.data_type,
    {
        &self.data_type
    }
}

} // verus!
