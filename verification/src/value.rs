use vstd::prelude::*;

verus! {

/// A typed value, as mathematics.
pub enum ValueView {
    Unit,
    Bool(bool),
    Byte(u8),
    I8(i8),
    U8(u8),
    I16(i16),
    U16(u16),
    I32(i32),
    U32(u32),
    I64(i64),
    U64(u64),
    Str(Seq<char>),
    Optional(Option<Box<ValueView>>),
    Sequence(Seq<ValueView>),
    Record(Seq<FieldView>),
    Mapping(Seq<EntryView>),
    UnitVariant(Seq<char>),
    NewtypeVariant(Seq<char>, Box<ValueView>),
    TupleVariant(Seq<char>, Seq<ValueView>),
    StructVariant(Seq<char>, Seq<FieldView>),
}

pub struct FieldView {
    pub name: Seq<char>,
    pub value: ValueView,
}

pub struct EntryView {
    pub key: ValueView,
    pub value: ValueView,
}

/// A typed value: what is written to a list and read back from one.
#[derive(Debug, PartialEq, Eq)]
pub enum Value {
    Unit,
    Bool(bool),
    Byte(u8),
    I8(i8),
    U8(u8),
    I16(i16),
    U16(u16),
    I32(i32),
    U32(u32),
    I64(i64),
    U64(u64),
    Str(String),
    /// A value that may be absent.
    Optional(Option<Box<Value>>),
    /// Elements of one type.
    Sequence(Vec<Value>),
    /// Named fields, in the order of their declaration.
    Record(Vec<Field>),
    /// Keys with their values, in order.
    Mapping(Vec<Entry>),
    /// A variant of an enum without a payload, by its name.
    UnitVariant(String),
    /// A variant of an enum with one payload.
    NewtypeVariant(String, Box<Value>),
    /// A variant of an enum with several unnamed payloads.
    TupleVariant(String, Vec<Value>),
    /// A variant of an enum with named payloads.
    StructVariant(String, Vec<Field>),
}

/// A field of a record.
#[derive(Debug, PartialEq, Eq)]
pub struct Field {
    pub name: String,
    pub value: Value,
}

/// An entry of a map.
#[derive(Debug, PartialEq, Eq)]
pub struct Entry {
    pub key: Value,
    pub value: Value,
}

impl View for Value {
    type V = ValueView;

    open spec fn view(&self) -> ValueView {
        value_view(*self)
    }
}

/// What a typed value is, as mathematics.
pub open spec fn value_view(v: Value) -> ValueView
    decreases v, 0nat,
{
    match v {
        Value::Unit => ValueView::Unit,
        Value::Bool(v) => ValueView::Bool(v),
        Value::Byte(v) => ValueView::Byte(v),
        Value::I8(v) => ValueView::I8(v),
        Value::U8(v) => ValueView::U8(v),
        Value::I16(v) => ValueView::I16(v),
        Value::U16(v) => ValueView::U16(v),
        Value::I32(v) => ValueView::I32(v),
        Value::U32(v) => ValueView::U32(v),
        Value::I64(v) => ValueView::I64(v),
        Value::U64(v) => ValueView::U64(v),
        Value::Str(s) => ValueView::Str(s@),
        Value::Optional(o) => ValueView::Optional(
            match o {
                None => None,
                Some(b) => Some(Box::new(value_view(*b))),
            },
        ),
        Value::Sequence(v) => ValueView::Sequence(values_view(v@, v@.len())),
        Value::Record(v) => ValueView::Record(fields_view(v@, v@.len())),
        Value::Mapping(v) => ValueView::Mapping(entries_view(v@, v@.len())),
        Value::UnitVariant(n) => ValueView::UnitVariant(n@),
        Value::NewtypeVariant(n, b) => ValueView::NewtypeVariant(n@, Box::new(value_view(*b))),
        Value::TupleVariant(n, v) => ValueView::TupleVariant(n@, values_view(v@, v@.len())),
        Value::StructVariant(n, v) => ValueView::StructVariant(n@, fields_view(v@, v@.len())),
    }
}

/// The views of the first `n` values, in order.
pub open spec fn values_view(s: Seq<Value>, n: nat) -> Seq<ValueView>
    decreases s, n,
{
    if n == 0 || n > s.len() {
        Seq::empty()
    } else {
        values_view(s, (n - 1) as nat).push(value_view(s[n - 1]))
    }
}

/// The views of the first `n` fields, in order.
pub open spec fn fields_view(s: Seq<Field>, n: nat) -> Seq<FieldView>
    decreases s, n,
{
    if n == 0 || n > s.len() {
        Seq::empty()
    } else {
        fields_view(s, (n - 1) as nat).push(
            FieldView { name: s[n - 1].name@, value: value_view(s[n - 1].value) },
        )
    }
}

/// The views of the first `n` entries, in order.
pub open spec fn entries_view(s: Seq<Entry>, n: nat) -> Seq<EntryView>
    decreases s, n,
{
    if n == 0 || n > s.len() {
        Seq::empty()
    } else {
        entries_view(s, (n - 1) as nat).push(
            EntryView { key: value_view(s[n - 1].key), value: value_view(s[n - 1].value) },
        )
    }
}

/// The view of a vector of values holds the view of each, in order.
pub proof fn lemma_values_view(s: Seq<Value>, n: nat)
    requires
        n <= s.len(),
    ensures
        values_view(s, n).len() == n,
        forall|i: int| 0 <= i < n ==> #[trigger] values_view(s, n)[i] == s[i]@,
    decreases n,
{
    if n > 0 {
        lemma_values_view(s, (n - 1) as nat);
    }
}

/// The view of a vector of fields holds the view of each, in order.
pub proof fn lemma_fields_view(s: Seq<Field>, n: nat)
    requires
        n <= s.len(),
    ensures
        fields_view(s, n).len() == n,
        forall|i: int| 0 <= i < n ==> #[trigger] fields_view(s, n)[i] == s[i]@,
    decreases n,
{
    if n > 0 {
        lemma_fields_view(s, (n - 1) as nat);
    }
}

/// The view of a vector of entries holds the view of each, in order.
pub proof fn lemma_entries_view(s: Seq<Entry>, n: nat)
    requires
        n <= s.len(),
    ensures
        entries_view(s, n).len() == n,
        forall|i: int| 0 <= i < n ==> #[trigger] entries_view(s, n)[i] == s[i]@,
    decreases n,
{
    if n > 0 {
        lemma_entries_view(s, (n - 1) as nat);
    }
}

impl View for Field {
    type V = FieldView;

    open spec fn view(&self) -> FieldView {
        FieldView { name: self.name@, value: self.value@ }
    }
}

impl View for Entry {
    type V = EntryView;

    open spec fn view(&self) -> EntryView {
        EntryView { key: self.key@, value: self.value@ }
    }
}

/// The type of a value, as mathematics.
pub enum ShapeView {
    Unit,
    Bool,
    Byte,
    I8,
    U8,
    I16,
    U16,
    I32,
    U32,
    I64,
    U64,
    Str,
    Optional(Box<ShapeView>),
    Sequence(Box<ShapeView>),
    Record(Seq<FieldShapeView>),
    Mapping(Box<ShapeView>, Box<ShapeView>),
    Enum(Seq<VariantShapeView>),
}

pub struct FieldShapeView {
    pub name: Seq<char>,
    pub shape: ShapeView,
}

pub struct VariantShapeView {
    pub name: Seq<char>,
    pub payload: Option<ShapeView>,
}

/// The type of a value: what a reader expects to find in a list.
#[derive(Debug, PartialEq, Eq)]
pub enum Shape {
    Unit,
    Bool,
    Byte,
    I8,
    U8,
    I16,
    U16,
    I32,
    U32,
    I64,
    U64,
    Str,
    Optional(Box<Shape>),
    Sequence(Box<Shape>),
    Record(Vec<FieldShape>),
    /// A map, by the type of its keys and that of its values.
    Mapping(Box<Shape>, Box<Shape>),
    Enum(Vec<VariantShape>),
}

/// A field of a record type.
#[derive(Debug, PartialEq, Eq)]
pub struct FieldShape {
    pub name: String,
    pub shape: Shape,
}

/// A variant of an enum type: without a payload, or with one of the given type.
#[derive(Debug, PartialEq, Eq)]
pub struct VariantShape {
    pub name: String,
    pub payload: Option<Shape>,
}

impl View for Shape {
    type V = ShapeView;

    open spec fn view(&self) -> ShapeView {
        shape_view(*self)
    }
}

/// What a type is, as mathematics.
pub open spec fn shape_view(s: Shape) -> ShapeView
    decreases s, 0nat,
{
    match s {
        Shape::Unit => ShapeView::Unit,
        Shape::Bool => ShapeView::Bool,
        Shape::Byte => ShapeView::Byte,
        Shape::I8 => ShapeView::I8,
        Shape::U8 => ShapeView::U8,
        Shape::I16 => ShapeView::I16,
        Shape::U16 => ShapeView::U16,
        Shape::I32 => ShapeView::I32,
        Shape::U32 => ShapeView::U32,
        Shape::I64 => ShapeView::I64,
        Shape::U64 => ShapeView::U64,
        Shape::Str => ShapeView::Str,
        Shape::Optional(b) => ShapeView::Optional(Box::new(shape_view(*b))),
        Shape::Sequence(b) => ShapeView::Sequence(Box::new(shape_view(*b))),
        Shape::Record(v) => ShapeView::Record(field_shapes_view(v@, v@.len())),
        Shape::Mapping(k, v) => ShapeView::Mapping(
            Box::new(shape_view(*k)),
            Box::new(shape_view(*v)),
        ),
        Shape::Enum(v) => ShapeView::Enum(variant_shapes_view(v@, v@.len())),
    }
}

/// The views of the first `n` field types, in order.
pub open spec fn field_shapes_view(s: Seq<FieldShape>, n: nat) -> Seq<FieldShapeView>
    decreases s, n,
{
    if n == 0 || n > s.len() {
        Seq::empty()
    } else {
        field_shapes_view(s, (n - 1) as nat).push(
            FieldShapeView { name: s[n - 1].name@, shape: shape_view(s[n - 1].shape) },
        )
    }
}

/// The views of the first `n` variant types, in order.
pub open spec fn variant_shapes_view(s: Seq<VariantShape>, n: nat) -> Seq<VariantShapeView>
    decreases s, n,
{
    if n == 0 || n > s.len() {
        Seq::empty()
    } else {
        variant_shapes_view(s, (n - 1) as nat).push(
            VariantShapeView {
                name: s[n - 1].name@,
                payload: match s[n - 1].payload {
                    None => None,
                    Some(p) => Some(shape_view(p)),
                },
            },
        )
    }
}

/// The view of a vector of field types holds the view of each, in order.
pub proof fn lemma_field_shapes_view(s: Seq<FieldShape>, n: nat)
    requires
        n <= s.len(),
    ensures
        field_shapes_view(s, n).len() == n,
        forall|i: int| 0 <= i < n ==> #[trigger] field_shapes_view(s, n)[i] == s[i]@,
    decreases n,
{
    if n > 0 {
        lemma_field_shapes_view(s, (n - 1) as nat);
    }
}

/// The view of a vector of variant types holds the view of each, in order.
pub proof fn lemma_variant_shapes_view(s: Seq<VariantShape>, n: nat)
    requires
        n <= s.len(),
    ensures
        variant_shapes_view(s, n).len() == n,
        forall|i: int| 0 <= i < n ==> #[trigger] variant_shapes_view(s, n)[i] == s[i]@,
    decreases n,
{
    if n > 0 {
        lemma_variant_shapes_view(s, (n - 1) as nat);
    }
}

impl View for FieldShape {
    type V = FieldShapeView;

    open spec fn view(&self) -> FieldShapeView {
        FieldShapeView { name: self.name@, shape: self.shape@ }
    }
}

impl View for VariantShape {
    type V = VariantShapeView;

    open spec fn view(&self) -> VariantShapeView {
        VariantShapeView {
            name: self.name@,
            payload: match self.payload {
                None => None,
                Some(s) => Some(s@),
            },
        }
    }
}

} // verus!
