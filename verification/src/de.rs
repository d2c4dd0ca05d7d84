use vstd::prelude::*;
use crate::data::{DataView, ListView, NvData, NvList, NvListIter, NvListRef, NvPair, PairView};
use crate::error::{Error, ErrorView, Kind, NvType};
use crate::value::{
    lemma_entries_view, lemma_field_shapes_view, lemma_fields_view, lemma_values_view,
    lemma_variant_shapes_view, entries_view, fields_view, values_view, Entry, EntryView, Field,
    FieldShape, FieldShapeView, FieldView, Shape, ShapeView, Value, ValueView, VariantShape,
    VariantShapeView,
};

verus! {

/// What to make of an entry of a list that the type which is read has no
/// use for: an entry whose name is that of no field of a record, a second
/// entry of the name of a field, or an entry behind the one that holds the
/// payload of a variant.
#[derive(Debug, Clone, Copy, PartialEq, Eq, Structural)]
pub enum Policy {
    /// Such an entry is passed over.
    Lenient,
    /// Such an entry is an error.
    Strict,
}

/// The kind of a type, for a report of what was expected.
pub open spec fn kind_of(s: ShapeView) -> Kind {
    match s {
        ShapeView::Unit => Kind::Unit,
        ShapeView::Bool => Kind::Bool,
        ShapeView::Byte => Kind::Byte,
        ShapeView::I8 => Kind::I8,
        ShapeView::U8 => Kind::U8,
        ShapeView::I16 => Kind::I16,
        ShapeView::U16 => Kind::U16,
        ShapeView::I32 => Kind::I32,
        ShapeView::U32 => Kind::U32,
        ShapeView::I64 => Kind::I64,
        ShapeView::U64 => Kind::U64,
        ShapeView::Str => Kind::Str,
        ShapeView::Optional(_) => Kind::Optional,
        ShapeView::Sequence(_) => Kind::Sequence,
        ShapeView::Record(_) => Kind::Record,
        ShapeView::Mapping(_, _) => Kind::Mapping,
        ShapeView::Enum(_) => Kind::Enum,
    }
}

/// The error for an entry whose value does not have the tag that the type asks for.
pub open spec fn mismatch(name: Seq<char>, s: ShapeView, d: DataView) -> ErrorView {
    ErrorView::TypeMismatch { name, expected: kind_of(s), found: d.tag() }
}

/// The elements of an array, each as a value of its own, in order.
pub open spec fn elements(d: DataView) -> Option<Seq<DataView>> {
    match d {
        DataView::ByteArray(v) => Some(Seq::new(v.len(), |i: int| DataView::Byte(v[i]))),
        DataView::Int8Array(v) => Some(Seq::new(v.len(), |i: int| DataView::Int8(v[i]))),
        DataView::Uint8Array(v) => Some(Seq::new(v.len(), |i: int| DataView::Uint8(v[i]))),
        DataView::Int16Array(v) => Some(Seq::new(v.len(), |i: int| DataView::Int16(v[i]))),
        DataView::Uint16Array(v) => Some(Seq::new(v.len(), |i: int| DataView::Uint16(v[i]))),
        DataView::Int32Array(v) => Some(Seq::new(v.len(), |i: int| DataView::Int32(v[i]))),
        DataView::Uint32Array(v) => Some(Seq::new(v.len(), |i: int| DataView::Uint32(v[i]))),
        DataView::Int64Array(v) => Some(Seq::new(v.len(), |i: int| DataView::Int64(v[i]))),
        DataView::Uint64Array(v) => Some(Seq::new(v.len(), |i: int| DataView::Uint64(v[i]))),
        DataView::NvListArray(v) => Some(Seq::new(v.len(), |i: int| DataView::NvList(v[i]))),
        _ => None,
    }
}

/// The index of the first field from `from` on that has the name.
pub open spec fn field_index(fields: Seq<FieldShapeView>, name: Seq<char>, from: int) -> Option<int>
    decreases fields.len() - from,
{
    if from < 0 || from >= fields.len() {
        None
    } else if fields[from].name == name {
        Some(from)
    } else {
        field_index(fields, name, from + 1)
    }
}

/// The index of the first variant from `from` on that has the name.
pub open spec fn variant_index(
    variants: Seq<VariantShapeView>,
    name: Seq<char>,
    from: int,
) -> Option<
    int,
>
    decreases variants.len() - from,
{
    if from < 0 || from >= variants.len() {
        None
    } else if variants[from].name == name {
        Some(from)
    } else {
        variant_index(variants, name, from + 1)
    }
}

/// The typed value that a tagged value stands for where a value of type `s`
/// is expected, or the reason why it stands for none. `name` is the name of
/// the entry that holds the value, for the report of an error.
///
/// A value of unknown kind stands for nothing. Where an optional value is
/// expected, a valueless entry stands for the absent value and every other
/// entry for a present one. A number is never converted to another width.
pub open spec fn spec_decode_value(
    d: DataView,
    s: ShapeView,
    name: Seq<char>,
    policy: Policy,
) -> Result<
    ValueView,
    ErrorView,
>
    decreases s, 1nat, 0nat,
{
    if d is Unknown {
        Err(ErrorView::UnknownTag(name))
    } else {
        match s {
            ShapeView::Optional(inner) => if d is Bool {
                Ok(ValueView::Optional(None))
            } else {
                match spec_decode_value(d, *inner, name, policy) {
                    Ok(v) => Ok(ValueView::Optional(Some(Box::new(v)))),
                    Err(e) => Err(e),
                }
            },
            ShapeView::Unit => if d is Bool {
                Ok(ValueView::Unit)
            } else {
                Err(mismatch(name, s, d))
            },
            ShapeView::Bool => match d {
                DataView::BoolV(x) => Ok(ValueView::Bool(x)),
                _ => Err(mismatch(name, s, d)),
            },
            ShapeView::Byte => match d {
                DataView::Byte(x) => Ok(ValueView::Byte(x)),
                _ => Err(mismatch(name, s, d)),
            },
            ShapeView::I8 => match d {
                DataView::Int8(x) => Ok(ValueView::I8(x)),
                _ => Err(mismatch(name, s, d)),
            },
            ShapeView::U8 => match d {
                DataView::Uint8(x) => Ok(ValueView::U8(x)),
                _ => Err(mismatch(name, s, d)),
            },
            ShapeView::I16 => match d {
                DataView::Int16(x) => Ok(ValueView::I16(x)),
                _ => Err(mismatch(name, s, d)),
            },
            ShapeView::U16 => match d {
                DataView::Uint16(x) => Ok(ValueView::U16(x)),
                _ => Err(mismatch(name, s, d)),
            },
            ShapeView::I32 => match d {
                DataView::Int32(x) => Ok(ValueView::I32(x)),
                _ => Err(mismatch(name, s, d)),
            },
            ShapeView::U32 => match d {
                DataView::Uint32(x) => Ok(ValueView::U32(x)),
                _ => Err(mismatch(name, s, d)),
            },
            ShapeView::I64 => match d {
                DataView::Int64(x) => Ok(ValueView::I64(x)),
                _ => Err(mismatch(name, s, d)),
            },
            ShapeView::U64 => match d {
                DataView::Uint64(x) => Ok(ValueView::U64(x)),
                _ => Err(mismatch(name, s, d)),
            },
            ShapeView::Str => match d {
                DataView::Str(t) => Ok(ValueView::Str(t)),
                _ => Err(mismatch(name, s, d)),
            },
            ShapeView::Sequence(_) => match elements(d) {
                Some(elems) => match decode_elements(elems, s, name, elems.len(), policy) {
                    Ok(vs) => Ok(ValueView::Sequence(vs)),
                    Err(e) => Err(e),
                },
                None => Err(mismatch(name, s, d)),
            },
            ShapeView::Record(fields) => match d {
                DataView::NvList(l) => match fill_fields(l.pairs, s, l.pairs.len(), policy) {
                    Err(e) => Err(e),
                    Ok(slots) => match finish_fields(slots, fields, fields.len()) {
                        Ok(fs) => Ok(ValueView::Record(fs)),
                        Err(e) => Err(e),
                    },
                },
                _ => Err(mismatch(name, s, d)),
            },
            ShapeView::Mapping(_, _) => match d {
                DataView::NvList(l) => match decode_entries(l.pairs, s, l.pairs.len(), policy) {
                    Ok(es) => Ok(ValueView::Mapping(es)),
                    Err(e) => Err(e),
                },
                _ => Err(mismatch(name, s, d)),
            },
            ShapeView::Enum(variants) => match d {
                DataView::Str(t) => match variant_index(variants, t, 0) {
                    Some(k) => if 0 <= k < variants.len() && variants[k].payload is None {
                        Ok(ValueView::UnitVariant(t))
                    } else {
                        Err(mismatch(name, s, d))
                    },
                    None => Err(mismatch(name, s, d)),
                },
                DataView::NvList(l) => if l.pairs.len() == 0 {
                    Err(mismatch(name, s, d))
                } else {
                    match variant_index(variants, l.pairs[0].name, 0) {
                        Some(k) => if 0 <= k < variants.len() && variants[k].payload is Some {
                            match spec_decode_value(
                                l.pairs[0].data,
                                variants[k].payload->0,
                                l.pairs[0].name,
                                policy,
                            ) {
                                Ok(v) => if l.pairs.len() > 1 {
                                    unused(
                                        ValueView::NewtypeVariant(l.pairs[0].name, Box::new(v)),
                                        l.pairs[1].name,
                                        policy,
                                    )
                                } else {
                                    Ok(ValueView::NewtypeVariant(l.pairs[0].name, Box::new(v)))
                                },
                                Err(e) => Err(e),
                            }
                        } else {
                            Err(mismatch(name, s, d))
                        },
                        None => Err(mismatch(name, s, d)),
                    }
                },
                _ => Err(mismatch(name, s, d)),
            },
        }
    }
}

/// The typed values of the first `n` elements of an array where a sequence
/// of type `s` is expected, in order, or the error of the first element that
/// stands for none.
pub open spec fn decode_elements(
    elems: Seq<DataView>,
    s: ShapeView,
    name: Seq<char>,
    n: nat,
    policy: Policy,
) -> Result<
    Seq<ValueView>,
    ErrorView,
>
    decreases s, 0nat, n,
{
    match s {
        ShapeView::Sequence(es) => if n == 0 || n > elems.len() {
            Ok(Seq::empty())
        } else {
            match decode_elements(elems, s, name, (n - 1) as nat, policy) {
                Err(e) => Err(e),
                Ok(vs) => match spec_decode_value(elems[n - 1], *es, name, policy) {
                    Err(e) => Err(e),
                    Ok(v) => Ok(vs.push(v)),
                },
            }
        },
        _ => Ok(Seq::empty()),
    }
}

/// What becomes of the reading where an entry is of no use: it goes on
/// where the policy is lenient, and ends with an error where it is strict.
pub open spec fn unused<T>(so_far: T, name: Seq<char>, policy: Policy) -> Result<T, ErrorView> {
    match policy {
        Policy::Lenient => Ok(so_far),
        Policy::Strict => Err(ErrorView::Unconsumed(name)),
    }
}

/// What the fields of a record of type `s` hold after the first `n` entries
/// of a list were read in order: for each field the value of the first entry
/// of its name, where one was read. An entry whose name is that of no field,
/// or of a field that has its value, is passed over. The first entry whose
/// value does not stand for a value of its field's type ends the reading.
pub open spec fn fill_fields(pairs: Seq<PairView>, s: ShapeView, n: nat, policy: Policy) -> Result<
    Seq<Option<ValueView>>,
    ErrorView,
>
    decreases s, 0nat, n,
{
    match s {
        ShapeView::Record(fields) => if n == 0 || n > pairs.len() {
            Ok(Seq::new(fields.len(), |i: int| None))
        } else {
            match fill_fields(pairs, s, (n - 1) as nat, policy) {
                Err(e) => Err(e),
                Ok(slots) => match field_index(fields, pairs[n - 1].name, 0) {
                    None => unused(slots, pairs[n - 1].name, policy),
                    Some(k) => if 0 <= k < fields.len() && k < slots.len() && slots[k] is None {
                        match spec_decode_value(
                            pairs[n - 1].data,
                            fields[k].shape,
                            pairs[n - 1].name,
                            policy,
                        ) {
                            Err(e) => Err(e),
                            Ok(v) => Ok(slots.update(k, Some(v))),
                        }
                    } else {
                        unused(slots, pairs[n - 1].name, policy)
                    },
                },
            }
        },
        _ => Ok(Seq::empty()),
    }
}

/// The first `n` fields of a record from what was read for them: a field for
/// which nothing was read is absent where its type is optional, and an error
/// where it is not.
pub open spec fn finish_fields(
    slots: Seq<Option<ValueView>>,
    fields: Seq<FieldShapeView>,
    n: nat,
) -> Result<Seq<FieldView>, ErrorView>
    decreases n,
{
    if n == 0 || n > fields.len() || n > slots.len() {
        Ok(Seq::empty())
    } else {
        match finish_fields(slots, fields, (n - 1) as nat) {
            Err(e) => Err(e),
            Ok(fs) => match slots[n - 1] {
                Some(v) => Ok(fs.push(FieldView { name: fields[n - 1].name, value: v })),
                None => if fields[n - 1].shape is Optional {
                    Ok(
                        fs.push(
                            FieldView {
                                name: fields[n - 1].name,
                                value: ValueView::Optional(None),
                            },
                        ),
                    )
                } else {
                    Err(ErrorView::MissingField(fields[n - 1].name))
                },
            },
        }
    }
}

/// The first `n` entries of a list as the entries of a map of type `s`, in
/// order: the key from the entry's name and the value from its value; or the
/// first error.
pub open spec fn decode_entries(
    pairs: Seq<PairView>,
    s: ShapeView,
    n: nat,
    policy: Policy,
) -> Result<
    Seq<EntryView>,
    ErrorView,
>
    decreases s, 0nat, n,
{
    match s {
        ShapeView::Mapping(ks, vs) => if n == 0 || n > pairs.len() {
            Ok(Seq::empty())
        } else {
            match decode_entries(pairs, s, (n - 1) as nat, policy) {
                Err(e) => Err(e),
                Ok(es) => match spec_decode_value(
                    DataView::Str(pairs[n - 1].name),
                    *ks,
                    pairs[n - 1].name,
                    policy,
                ) {
                    Err(e) => Err(e),
                    Ok(key) => match spec_decode_value(
                        pairs[n - 1].data,
                        *vs,
                        pairs[n - 1].name,
                        policy,
                    ) {
                        Err(e) => Err(e),
                        Ok(value) => Ok(es.push(EntryView { key, value })),
                    },
                },
            }
        },
        _ => Ok(Seq::empty()),
    }
}

/// The typed value that a list stands for where a value of type `s` is expected.
pub open spec fn spec_from_nvlist(
    l: ListView,
    s: ShapeView,
    policy: Policy,
) -> Result<ValueView, ErrorView> {
    spec_decode_value(DataView::NvList(l), s, Seq::empty(), policy)
}

/// Whether a result is the given outcome, as mathematics.
pub open spec fn value_outcome(
    r: Result<Value, Error>,
    expected: Result<ValueView, ErrorView>,
) -> bool {
    match expected {
        Ok(v) => r matches Ok(x) && x@ == v,
        Err(e) => r matches Err(x) && x@ == e,
    }
}

/// The views of what was read for the fields of a record.
pub open spec fn slot_views(s: Seq<Option<Value>>) -> Seq<Option<ValueView>> {
    Seq::new(
        s.len(),
        |i: int|
            match s[i] {
                Some(v) => Some(v@),
                None => None,
            },
    )
}

/// An element that stands for no value decides the outcome for the whole array.
pub proof fn lemma_decode_elements_error_stays(
    elems: Seq<DataView>,
    s: ShapeView,
    name: Seq<char>,
    i: nat,
    n: nat,
    policy: Policy,
)
    requires
        i <= n <= elems.len(),
    ensures
        decode_elements(elems, s, name, i, policy) is Err ==> decode_elements(
            elems,
            s,
            name,
            n,
            policy,
        ) == decode_elements(elems, s, name, i, policy),
    decreases n,
{
    if i < n {
        lemma_decode_elements_error_stays(elems, s, name, i, (n - 1) as nat, policy);
    }
}

/// An entry that stands for no value of its field decides the outcome for the whole record.
pub proof fn lemma_fill_fields_error_stays(
    pairs: Seq<PairView>,
    s: ShapeView,
    i: nat,
    n: nat,
    policy: Policy,
)
    requires
        i <= n <= pairs.len(),
    ensures
        fill_fields(pairs, s, i, policy) is Err ==> fill_fields(pairs, s, n, policy)
            == fill_fields(pairs, s, i, policy),
    decreases n,
{
    if i < n {
        lemma_fill_fields_error_stays(pairs, s, i, (n - 1) as nat, policy);
    }
}

/// A field that is missing decides the outcome for the whole record.
pub proof fn lemma_finish_fields_error_stays(
    slots: Seq<Option<ValueView>>,
    fields: Seq<FieldShapeView>,
    i: nat,
    n: nat,
)
    requires
        i <= n <= fields.len(),
        n <= slots.len(),
    ensures
        finish_fields(slots, fields, i) is Err ==> finish_fields(slots, fields, n) == finish_fields(
            slots,
            fields,
            i,
        ),
    decreases n,
{
    if i < n {
        lemma_finish_fields_error_stays(slots, fields, i, (n - 1) as nat);
    }
}

/// An entry that stands for no key or value decides the outcome for the whole map.
pub proof fn lemma_decode_entries_error_stays(
    pairs: Seq<PairView>,
    s: ShapeView,
    i: nat,
    n: nat,
    policy: Policy,
)
    requires
        i <= n <= pairs.len(),
    ensures
        decode_entries(pairs, s, i, policy) is Err ==> decode_entries(pairs, s, n, policy)
            == decode_entries(
            pairs,
            s,
            i,
            policy,
        ),
    decreases n,
{
    if i < n {
        lemma_decode_entries_error_stays(pairs, s, i, (n - 1) as nat, policy);
    }
}

/// The index of a field that `field_index` finds is that of a field of the name.
pub proof fn lemma_field_index(fields: Seq<FieldShapeView>, name: Seq<char>, from: int)
    requires
        0 <= from,
    ensures
        match field_index(fields, name, from) {
            Some(k) => {
                &&& from <= k < fields.len()
                &&& fields[k].name == name
                &&& forall|j: int| from <= j < k ==> fields[j].name != name
            },
            None => forall|j: int| from <= j < fields.len() ==> fields[j].name != name,
        },
    decreases fields.len() - from,
{
    if from < fields.len() && fields[from].name != name {
        lemma_field_index(fields, name, from + 1);
    }
}

/// The index of a variant that `variant_index` finds is that of a variant of the name.
pub proof fn lemma_variant_index(variants: Seq<VariantShapeView>, name: Seq<char>, from: int)
    requires
        0 <= from,
    ensures
        match variant_index(variants, name, from) {
            Some(k) => {
                &&& from <= k < variants.len()
                &&& variants[k].name == name
                &&& forall|j: int| from <= j < k ==> variants[j].name != name
            },
            None => forall|j: int| from <= j < variants.len() ==> variants[j].name != name,
        },
    decreases variants.len() - from,
{
    if from < variants.len() && variants[from].name != name {
        lemma_variant_index(variants, name, from + 1);
    }
}

fn kind(s: &Shape) -> (k: Kind)
    ensures
        k == kind_of(s@),
{
    match s {
        Shape::Unit => Kind::Unit,
        Shape::Bool => Kind::Bool,
        Shape::Byte => Kind::Byte,
        Shape::I8 => Kind::I8,
        Shape::U8 => Kind::U8,
        Shape::I16 => Kind::I16,
        Shape::U16 => Kind::U16,
        Shape::I32 => Kind::I32,
        Shape::U32 => Kind::U32,
        Shape::I64 => Kind::I64,
        Shape::U64 => Kind::U64,
        Shape::Str => Kind::Str,
        Shape::Optional(_) => Kind::Optional,
        Shape::Sequence(_) => Kind::Sequence,
        Shape::Record(_) => Kind::Record,
        Shape::Mapping(_, _) => Kind::Mapping,
        Shape::Enum(_) => Kind::Enum,
    }
}

fn mismatch_error(name: &str, s: &Shape, d: &NvData) -> (e: Error)
    ensures
        e@ == mismatch(name@, s@, d@),
{
    Error::TypeMismatch { name: name.to_owned(), expected: kind(s), found: d.tag() }
}

/// The views of the fields of a record type.
pub open spec fn field_views(fields: &Vec<FieldShape>) -> Seq<FieldShapeView> {
    crate::value::field_shapes_view(fields@, fields@.len())
}

/// The views of the variants of an enum type.
pub open spec fn variant_views(variants: &Vec<VariantShape>) -> Seq<VariantShapeView> {
    crate::value::variant_shapes_view(variants@, variants@.len())
}

fn find_field(fields: &Vec<FieldShape>, name: &str) -> (r: Option<usize>)
    ensures
        match r {
            Some(k) => {
                &&& k < fields.len()
                &&& field_index(field_views(fields), name@, 0) == Some(k as int)
            },
            None => field_index(field_views(fields), name@, 0) is None,
        },
{
    let ghost fv = crate::value::field_shapes_view(fields@, fields@.len());
    proof {
        lemma_field_shapes_view(fields@, fields@.len());
    }
    let key = name.to_owned();
    let mut i: usize = 0;
    while i < fields.len()
        invariant
            i <= fields.len(),
            key@ == name@,
            fv == field_views(fields),
            fv.len() == fields.len(),
            forall|j: int| 0 <= j < fv.len() ==> #[trigger] fv[j] == fields@[j]@,
            field_index(fv, name@, 0) == field_index(fv, name@, i as int),
        decreases fields.len() - i,
    {
        assert(fv[i as int] == fields@[i as int]@);
        if fields[i].name == key {
            return Some(i);
        }
        i += 1;
    }
    None
}

fn find_variant(variants: &Vec<VariantShape>, name: &str) -> (r: Option<usize>)
    ensures
        match r {
            Some(k) => {
                &&& k < variants.len()
                &&& variant_index(variant_views(variants), name@, 0) == Some(k as int)
            },
            None => variant_index(variant_views(variants), name@, 0) is None,
        },
{
    let ghost vv = crate::value::variant_shapes_view(variants@, variants@.len());
    proof {
        lemma_variant_shapes_view(variants@, variants@.len());
    }
    let key = name.to_owned();
    let mut i: usize = 0;
    while i < variants.len()
        invariant
            i <= variants.len(),
            key@ == name@,
            vv == variant_views(variants),
            vv.len() == variants.len(),
            forall|j: int| 0 <= j < vv.len() ==> #[trigger] vv[j] == variants@[j]@,
            variant_index(vv, name@, 0) == variant_index(vv, name@, i as int),
        decreases variants.len() - i,
    {
        assert(vv[i as int] == variants@[i as int]@);
        if variants[i].name == key {
            return Some(i);
        }
        i += 1;
    }
    None
}

/// The number of elements, where the value is an array.
fn array_len(d: &NvData) -> (r: Option<usize>)
    ensures
        match r {
            Some(n) => elements(d@) matches Some(e) && e.len() == n,
            None => elements(d@) is None,
        },
{
    match d {
        NvData::ByteArray(v) => Some(v.len()),
        NvData::Int8Array(v) => Some(v.len()),
        NvData::Uint8Array(v) => Some(v.len()),
        NvData::Int16Array(v) => Some(v.len()),
        NvData::Uint16Array(v) => Some(v.len()),
        NvData::Int32Array(v) => Some(v.len()),
        NvData::Uint32Array(v) => Some(v.len()),
        NvData::Int64Array(v) => Some(v.len()),
        NvData::Uint64Array(v) => Some(v.len()),
        NvData::NvListArray(v) => Some(v.len()),
        _ => None,
    }
}

/// The element of an array of numbers at an index, as a value of its own.
fn scalar_at(d: &NvData, i: usize) -> (r: NvData)
    requires
        elements(d@) matches Some(e) && i < e.len(),
        !(d is NvListArray),
    ensures
        r@ == elements(d@)->0[i as int],
{
    match d {
        NvData::ByteArray(v) => NvData::Byte(v[i]),
        NvData::Int8Array(v) => NvData::Int8(v[i]),
        NvData::Uint8Array(v) => NvData::Uint8(v[i]),
        NvData::Int16Array(v) => NvData::Int16(v[i]),
        NvData::Uint16Array(v) => NvData::Uint16(v[i]),
        NvData::Int32Array(v) => NvData::Int32(v[i]),
        NvData::Uint32Array(v) => NvData::Uint32(v[i]),
        NvData::Int64Array(v) => NvData::Int64(v[i]),
        NvData::Uint64Array(v) => NvData::Uint64(v[i]),
        _ => NvData::Unknown,
    }
}

/// Takes what was read for a field out of its slot.
fn take_slot(slots: &mut Vec<Option<Value>>, k: usize) -> (r: Option<Value>)
    requires
        k < old(slots).len(),
    ensures
        r == old(slots)@[k as int],
        final(slots)@ == old(slots)@.update(k as int, None),
{
    let mut taken: Option<Value> = None;
    core::mem::swap(&mut slots[k], &mut taken);
    taken
}

/// A cursor that pulls the entries of a list one at a time, in the order of
/// insertion: of each entry first the name, then the value.
#[derive(Debug)]
pub struct Deserializer<'de> {
    iterator: NvListIter<'de>,
    data: Option<&'de NvPair>,
    policy: Policy,
}

impl<'de> Deserializer<'de> {
    /// The list that the cursor walks.
    pub closed spec fn list(&self) -> ListView {
        self.iterator.list()
    }

    /// How many entries the cursor has pulled.
    pub closed spec fn position(&self) -> nat {
        self.iterator.position()
    }

    /// The entry whose name was pulled and whose value was not.
    pub closed spec fn pending(&self) -> Option<PairView> {
        match self.data {
            Some(p) => Some(p@),
            None => None,
        }
    }

    /// What the values that the cursor reads make of entries that are of no use.
    pub closed spec fn policy(&self) -> Policy {
        self.policy
    }

    /// A cursor before the first entry, whose values are read leniently.
    pub fn from_nvlist(input: &'de NvListRef) -> (r: Self)
        ensures
            r.list() == input@,
            r.position() == 0,
            r.pending() is None,
            r.policy() == Policy::Lenient,
    {
        Deserializer { iterator: input.iter(), data: None, policy: Policy::Lenient }
    }

    /// A cursor before the first entry, whose values are read with the given policy.
    pub fn from_nvlist_with(input: &'de NvListRef, policy: Policy) -> (r: Self)
        ensures
            r.list() == input@,
            r.position() == 0,
            r.pending() is None,
            r.policy() == policy,
    {
        Deserializer { iterator: input.iter(), data: None, policy }
    }

    /// Pulls the next entry and gives its name, or `None` behind the last entry.
    pub fn next_key(&mut self) -> (r: Option<&'de str>)
        ensures
            final(self).list() == old(self).list(),
            final(self).policy() == old(self).policy(),
            old(self).position() <= old(self).list().pairs.len(),
            old(self).position() < old(self).list().pairs.len() ==> {
                &&& r matches Some(k)
                &&& k@ == old(self).list().pairs[old(self).position() as int].name
                &&& final(self).position() == old(self).position() + 1
                &&& final(self).pending() == Some(
                    old(self).list().pairs[old(self).position() as int],
                )
            },
            old(self).position() >= old(self).list().pairs.len() ==> {
                &&& r is None
                &&& final(self).position() == old(self).position()
                &&& final(self).pending() == old(self).pending()
            },
    {
        let nvpair = match self.iterator.next() {
            Some(nvpair) => nvpair,
            None => {
                return None;
            },
        };
        self.data = Some(nvpair);
        Some(nvpair.name())
    }

    /// Reads the value of the entry that was pulled last as a value of the
    /// type `s`. Without such an entry there is nothing to read.
    pub fn next_value(&mut self, s: &Shape) -> (r: Result<Value, Error>)
        ensures
            final(self).list() == old(self).list(),
            final(self).policy() == old(self).policy(),
            final(self).position() == old(self).position(),
            final(self).pending() is None,
            match old(self).pending() {
                Some(p) => value_outcome(
                    r,
                    spec_decode_value(p.data, s@, p.name, old(self).policy()),
                ),
                None => r matches Err(e) && e@ == ErrorView::NotFound,
            },
        decreases s, 2nat,
    {
        let pending = self.data;
        self.data = None;
        match pending {
            Some(pair) => decode_value(pair.data(), s, pair.name(), self.policy),
            None => Err(Error::NotFound),
        }
    }

    /// Passes over the value of the entry that was pulled last.
    pub fn skip_value(&mut self)
        ensures
            final(self).list() == old(self).list(),
            final(self).policy() == old(self).policy(),
            final(self).position() == old(self).position(),
            final(self).pending() is None,
    {
        self.data = None;
    }
}

/// A cursor that pulls the elements of an array one at a time.
#[derive(Debug)]
pub struct SeqAccessor<'de> {
    data: &'de NvData,
    name: &'de str,
    pos: usize,
    policy: Policy,
}

impl<'de> SeqAccessor<'de> {
    #[verifier::type_invariant]
    spec fn inv(&self) -> bool {
        &&& elements(self.data@) is Some
        &&& self.pos <= elements(self.data@)->0.len()
    }

    /// The elements of the array that the cursor walks.
    pub closed spec fn elements(&self) -> Seq<DataView> {
        elements(self.data@)->0
    }

    /// The name of the entry that holds the array.
    pub closed spec fn name(&self) -> Seq<char> {
        self.name@
    }

    /// How many elements the cursor has pulled.
    pub closed spec fn position(&self) -> nat {
        self.pos as nat
    }

    /// What the elements that the cursor reads make of entries that are of no use.
    pub closed spec fn policy(&self) -> Policy {
        self.policy
    }

    /// A cursor before the first element of an array, whose elements are
    /// read leniently; `None` for a value that is no array. `name` is the
    /// name of the entry that holds the value.
    pub fn new(data: &'de NvData, name: &'de str) -> (r: Option<Self>)
        ensures
            match r {
                Some(a) => {
                    &&& elements(data@) == Some(a.elements())
                    &&& a.name() == name@
                    &&& a.position() == 0
                    &&& a.policy() == Policy::Lenient
                },
                None => elements(data@) is None,
            },
    {
        SeqAccessor::new_with(data, name, Policy::Lenient)
    }

    /// As `new`, for elements that are read with the given policy.
    pub fn new_with(data: &'de NvData, name: &'de str, policy: Policy) -> (r: Option<Self>)
        ensures
            match r {
                Some(a) => {
                    &&& elements(data@) == Some(a.elements())
                    &&& a.name() == name@
                    &&& a.position() == 0
                    &&& a.policy() == policy
                },
                None => elements(data@) is None,
            },
    {
        match array_len(data) {
            Some(_) => Some(SeqAccessor { data, name, pos: 0, policy }),
            None => None,
        }
    }

    /// Pulls the next element and reads it as a value of the type `s`;
    /// `Ok(None)` behind the last element.
    pub fn next_element(&mut self, s: &Shape) -> (r: Result<Option<Value>, Error>)
        ensures
            final(self).elements() == old(self).elements(),
            final(self).name() == old(self).name(),
            final(self).policy() == old(self).policy(),
            old(self).position() <= old(self).elements().len(),
            old(self).position() < old(self).elements().len() ==> {
                &&& final(self).position() == old(self).position() + 1
                &&& match spec_decode_value(
                    old(self).elements()[old(self).position() as int],
                    s@,
                    old(self).name(),
                    old(self).policy(),
                ) {
                    Ok(v) => r matches Ok(Some(x)) && x@ == v,
                    Err(e) => r matches Err(x) && x@ == e,
                }
            },
            old(self).position() >= old(self).elements().len() ==> {
                &&& r matches Ok(None)
                &&& final(self).position() == old(self).position()
            },
        decreases s, 2nat,
    {
        proof {
            use_type_invariant(&*self);
        }
        let n = match array_len(self.data) {
            Some(n) => n,
            None => 0,
        };
        if self.pos >= n {
            return Ok(None);
        }
        let i = self.pos;
        self.pos = i + 1;
        let r = match self.data {
            NvData::NvListArray(ls) => {
                assert(elements(self.data@)->0[i as int] == DataView::NvList(ls@[i as int]@));
                decode_list(&ls[i], s, self.name, self.policy)
            },
            _ => {
                let e = scalar_at(self.data, i);
                decode_value(&e, s, self.name, self.policy)
            },
        };
        match r {
            Ok(v) => Ok(Some(v)),
            Err(e) => Err(e),
        }
    }
}

/// Reads a tagged value as a typed value of the type `s`. `name` is the name
/// of the entry that holds the value; an error reports it.
#[verifier::loop_isolation(false)]
pub fn decode_value(d: &NvData, s: &Shape, name: &str, policy: Policy) -> (r: Result<Value, Error>)
    ensures
        value_outcome(r, spec_decode_value(d@, s@, name@, policy)),
    decreases s, 1nat,
{
    match d {
        NvData::Unknown => {
            return Err(Error::UnknownTag(name.to_owned()));
        },
        NvData::NvList(l) => {
            return decode_list(l, s, name, policy);
        },
        _ => {},
    }
    match s {
        Shape::Optional(inner) => {
            match d {
                NvData::Bool => Ok(Value::Optional(None)),
                _ => match decode_value(d, inner, name, policy) {
                    Ok(v) => Ok(Value::Optional(Some(Box::new(v)))),
                    Err(e) => Err(e),
                },
            }
        },
        Shape::Unit => match d {
            NvData::Bool => Ok(Value::Unit),
            _ => Err(mismatch_error(name, s, d)),
        },
        Shape::Bool => match d {
            NvData::BoolV(x) => Ok(Value::Bool(*x)),
            _ => Err(mismatch_error(name, s, d)),
        },
        Shape::Byte => match d {
            NvData::Byte(x) => Ok(Value::Byte(*x)),
            _ => Err(mismatch_error(name, s, d)),
        },
        Shape::I8 => match d {
            NvData::Int8(x) => Ok(Value::I8(*x)),
            _ => Err(mismatch_error(name, s, d)),
        },
        Shape::U8 => match d {
            NvData::Uint8(x) => Ok(Value::U8(*x)),
            _ => Err(mismatch_error(name, s, d)),
        },
        Shape::I16 => match d {
            NvData::Int16(x) => Ok(Value::I16(*x)),
            _ => Err(mismatch_error(name, s, d)),
        },
        Shape::U16 => match d {
            NvData::Uint16(x) => Ok(Value::U16(*x)),
            _ => Err(mismatch_error(name, s, d)),
        },
        Shape::I32 => match d {
            NvData::Int32(x) => Ok(Value::I32(*x)),
            _ => Err(mismatch_error(name, s, d)),
        },
        Shape::U32 => match d {
            NvData::Uint32(x) => Ok(Value::U32(*x)),
            _ => Err(mismatch_error(name, s, d)),
        },
        Shape::I64 => match d {
            NvData::Int64(x) => Ok(Value::I64(*x)),
            _ => Err(mismatch_error(name, s, d)),
        },
        Shape::U64 => match d {
            NvData::Uint64(x) => Ok(Value::U64(*x)),
            _ => Err(mismatch_error(name, s, d)),
        },
        Shape::Str => match d {
            NvData::Str(t) => Ok(Value::Str(t.clone())),
            _ => Err(mismatch_error(name, s, d)),
        },
        Shape::Sequence(es) => {
            let mut cursor = match SeqAccessor::new_with(d, name, policy) {
                Some(a) => a,
                None => {
                    return Err(mismatch_error(name, s, d));
                },
            };
            let ghost elems = elements(d@)->0;
            let mut out: Vec<Value> = Vec::new();
            let mut done = false;
            while !done
                invariant
                    done ==> cursor.position() == elems.len(),
                    cursor.elements() == elems,
                    cursor.name() == name@,
                    cursor.policy() == policy,
                    cursor.position() <= elems.len(),
                    out.len() == cursor.position(),
                    decode_elements(elems, s@, name@, cursor.position(), policy) == Ok::<
                        _,
                        ErrorView,
                    >(
                        values_view(out@, cursor.position()),
                    ),
                decreases elems.len() - cursor.position() + (if done { 0int } else { 1int }),
            {
                let ghost i = cursor.position();
                proof {
                    if i < elems.len() {
                        lemma_decode_elements_error_stays(
                            elems,
                            s@,
                            name@,
                            i + 1,
                            elems.len(),
                            policy,
                        );
                    }
                }
                match cursor.next_element(es) {
                    Err(e) => {
                        return Err(e);
                    },
                    Ok(None) => {
                        done = true;
                    },
                    Ok(Some(v)) => {
                        proof {
                            lemma_values_view(out@, i);
                            lemma_values_view(out@.push(v), i + 1);
                            assert(values_view(out@.push(v), i + 1) =~= values_view(out@, i).push(
                                v@,
                            ));
                        }
                        out.push(v);
                    },
                }
            }
            Ok(Value::Sequence(out))
        },
        Shape::Enum(variants) => match d {
            NvData::Str(t) => {
                proof {
                    lemma_variant_shapes_view(variants@, variants@.len());
                }
                match find_variant(variants, t.as_str()) {
                    Some(k) => match &variants[k].payload {
                        None => Ok(Value::UnitVariant(t.clone())),
                        Some(_) => Err(mismatch_error(name, s, d)),
                    },
                    None => Err(mismatch_error(name, s, d)),
                }
            },
            _ => Err(mismatch_error(name, s, d)),
        },
        _ => Err(mismatch_error(name, s, d)),
    }
}

/// Reads a list as a typed value of the type `s`. `name` is the name of the
/// entry that holds the list; an error about the list itself reports it.
#[verifier::loop_isolation(false)]
pub fn decode_list(l: &NvList, s: &Shape, name: &str, policy: Policy) -> (r: Result<Value, Error>)
    ensures
        value_outcome(r, spec_decode_value(DataView::NvList(l@), s@, name@, policy)),
    decreases s, 0nat,
{
    let ghost d = DataView::NvList(l@);
    match s {
        Shape::Optional(inner) => match decode_list(l, inner, name, policy) {
            Ok(v) => Ok(Value::Optional(Some(Box::new(v)))),
            Err(e) => Err(e),
        },
        Shape::Record(fields) => {
            let ghost fsv = s@->Record_0;
            proof {
                lemma_field_shapes_view(fields@, fields@.len());
            }
            let mut slots: Vec<Option<Value>> = Vec::new();
            let mut k: usize = 0;
            while k < fields.len()
                invariant
                    k <= fields.len(),
                    slots.len() == k,
                    forall|j: int| 0 <= j < k ==> slots@[j] is None,
                decreases fields.len() - k,
            {
                slots.push(None);
                k += 1;
            }
            assert(slot_views(slots@) =~= Seq::new(fsv.len(), |i: int| None::<ValueView>));
            let mut entries = Deserializer::from_nvlist_with(l, policy);
            let mut done = false;
            while !done
                invariant
                    done ==> entries.position() == l@.pairs.len(),
                    entries.list() == l@,
                    entries.policy() == policy,
                    entries.pending() is None,
                    entries.position() <= l@.pairs.len(),
                    slots.len() == fields.len(),
                    fill_fields(l@.pairs, s@, entries.position(), policy) == Ok::<_, ErrorView>(
                        slot_views(slots@),
                    ),
                decreases l@.pairs.len() - entries.position() + (if done { 0int } else { 1int }),
            {
                let ghost i = entries.position();
                proof {
                    if i < l@.pairs.len() {
                        lemma_fill_fields_error_stays(l@.pairs, s@, i + 1, l@.pairs.len(), policy);
                    }
                }
                match entries.next_key() {
                    None => {
                        done = true;
                    },
                    Some(key) => match find_field(fields, key) {
                        None => {
                            match policy {
                                Policy::Lenient => {
                                    entries.skip_value();
                                },
                                Policy::Strict => {
                                    return Err(Error::Unconsumed(key.to_owned()));
                                },
                            }
                        },
                        Some(k) => {
                            if slots[k].is_none() {
                                match entries.next_value(&fields[k].shape) {
                                    Err(e) => {
                                        return Err(e);
                                    },
                                    Ok(v) => {
                                        let ghost before = slot_views(slots@);
                                        slots.set(k, Some(v));
                                        assert(slot_views(slots@) =~= before.update(
                                            k as int,
                                            Some(v@),
                                        ));
                                    },
                                }
                            } else {
                                match policy {
                                    Policy::Lenient => {
                                        entries.skip_value();
                                    },
                                    Policy::Strict => {
                                        return Err(Error::Unconsumed(key.to_owned()));
                                    },
                                }
                            }
                        },
                    },
                }
            }
            let ghost read = slot_views(slots@);
            let mut out: Vec<Field> = Vec::new();
            let mut k: usize = 0;
            while k < fields.len()
                invariant
                    k <= fields.len(),
                    out.len() == k,
                    slots.len() == fields.len(),
                    read.len() == fields.len(),
                    forall|j: int| k <= j < fields.len() ==> slot_views(slots@)[j] == read[j],
                    finish_fields(read, fsv, k as nat) == Ok::<_, ErrorView>(
                        fields_view(out@, k as nat),
                    ),
                decreases fields.len() - k,
            {
                proof {
                    lemma_finish_fields_error_stays(read, fsv, (k + 1) as nat, fsv.len());
                    assert(slot_views(slots@)[k as int] == read[k as int]);
                }
                let ghost before = slot_views(slots@);
                let taken = take_slot(&mut slots, k);
                proof {
                    assert forall|j: int| k < j < fields.len() implies slot_views(slots@)[j]
                        == read[j] by {
                        assert(before[j] == read[j]);
                    }
                }
                let value = match taken {
                    Some(v) => v,
                    None => match &fields[k].shape {
                        Shape::Optional(_) => Value::Optional(None),
                        _ => {
                            return Err(Error::MissingField(fields[k].name.clone()));
                        },
                    },
                };
                let f = Field { name: fields[k].name.clone(), value };
                proof {
                    lemma_fields_view(out@, k as nat);
                    lemma_fields_view(out@.push(f), (k + 1) as nat);
                    assert(fields_view(out@.push(f), (k + 1) as nat) =~= fields_view(
                        out@,
                        k as nat,
                    ).push(f@));
                }
                out.push(f);
                k += 1;
            }
            Ok(Value::Record(out))
        },
        Shape::Mapping(ks, vs) => {
            let mut out: Vec<Entry> = Vec::new();
            let mut entries = Deserializer::from_nvlist_with(l, policy);
            let mut done = false;
            while !done
                invariant
                    done ==> entries.position() == l@.pairs.len(),
                    entries.list() == l@,
                    entries.policy() == policy,
                    entries.pending() is None,
                    entries.position() <= l@.pairs.len(),
                    out.len() == entries.position(),
                    decode_entries(l@.pairs, s@, entries.position(), policy) == Ok::<_, ErrorView>(
                        entries_view(out@, entries.position()),
                    ),
                decreases l@.pairs.len() - entries.position() + (if done { 0int } else { 1int }),
            {
                let ghost i = entries.position();
                proof {
                    if i < l@.pairs.len() {
                        lemma_decode_entries_error_stays(
                            l@.pairs,
                            s@,
                            i + 1,
                            l@.pairs.len(),
                            policy,
                        );
                    }
                }
                match entries.next_key() {
                    None => {
                        done = true;
                    },
                    Some(name) => {
                        let key_data = NvData::Str(name.to_owned());
                        let key = match decode_value(&key_data, ks, name, policy) {
                            Err(e) => {
                                return Err(e);
                            },
                            Ok(v) => v,
                        };
                        let value = match entries.next_value(vs) {
                            Err(e) => {
                                return Err(e);
                            },
                            Ok(v) => v,
                        };
                        let e = Entry { key, value };
                        proof {
                            lemma_entries_view(out@, i);
                            lemma_entries_view(out@.push(e), i + 1);
                            assert(entries_view(out@.push(e), i + 1) =~= entries_view(out@, i).push(
                                e@,
                            ));
                        }
                        out.push(e);
                    },
                }
            }
            Ok(Value::Mapping(out))
        },
        Shape::Enum(variants) => {
            proof {
                lemma_variant_shapes_view(variants@, variants@.len());
            }
            if l.len() == 0 {
                return Err(list_mismatch(name, s));
            }
            let p = l.get(0);
            match find_variant(variants, p.name()) {
                Some(k) => match &variants[k].payload {
                    Some(ps) => match decode_value(p.data(), ps, p.name(), policy) {
                        Ok(v) => {
                            if l.len() > 1 {
                                match policy {
                                    Policy::Lenient => {},
                                    Policy::Strict => {
                                        return Err(Error::Unconsumed(l.get(1).name().to_owned()));
                                    },
                                }
                            }
                            Ok(Value::NewtypeVariant(p.name().to_owned(), Box::new(v)))
                        },
                        Err(e) => Err(e),
                    },
                    None => Err(list_mismatch(name, s)),
                },
                None => Err(list_mismatch(name, s)),
            }
        },
        _ => Err(list_mismatch(name, s)),
    }
}

/// The error for a list where the type asks for something else.
fn list_mismatch(name: &str, s: &Shape) -> (e: Error)
    ensures
        forall|l: ListView| #[trigger] mismatch(name@, s@, DataView::NvList(l)) == e@,
{
    Error::TypeMismatch { name: name.to_owned(), expected: kind(s), found: NvType::NvList }
}

/// Reads a list as a typed value of the type `s`: a record, a map or an
/// enum. Entries that the type has no use for are passed over.
pub fn from_nvlist(l: &NvList, s: &Shape) -> (r: Result<Value, Error>)
    ensures
        value_outcome(r, spec_from_nvlist(l@, s@, Policy::Lenient)),
{
    from_nvlist_with(l, s, Policy::Lenient)
}

/// Reads a list as a typed value of the type `s`: a record, a map or an
/// enum. The policy says what becomes of entries that the type has no use for.
pub fn from_nvlist_with(l: &NvList, s: &Shape, policy: Policy) -> (r: Result<Value, Error>)
    ensures
        value_outcome(r, spec_from_nvlist(l@, s@, policy)),
{
    let r = decode_list(l, s, "", policy);
    proof {
        reveal_strlit("");
        assert(""@ =~= Seq::<char>::empty());
    }
    r
}

/// A value of unknown kind stands for no value of any type.
pub proof fn lemma_unknown_rejected(s: ShapeView, name: Seq<char>, policy: Policy)
    ensures
        spec_decode_value(DataView::Unknown, s, name, policy) == Err::<ValueView, ErrorView>(
            ErrorView::UnknownTag(name),
        ),
{
}

/// Whatever was read for a field was read from an entry of the field's name.
pub proof fn lemma_fill_fields_origin(
    pairs: Seq<PairView>,
    fs: Seq<FieldShapeView>,
    n: nat,
    policy: Policy,
)
    requires
        n <= pairs.len(),
        fill_fields(pairs, ShapeView::Record(fs), n, policy) is Ok,
    ensures
        fill_fields(pairs, ShapeView::Record(fs), n, policy)->Ok_0.len() == fs.len(),
        forall|k: int|
            0 <= k < fs.len() && (#[trigger] fill_fields(
                pairs,
                ShapeView::Record(fs),
                n,
                policy,
            )->Ok_0[k])
                is Some ==> exists|j: int| 0 <= j < n && (#[trigger] pairs[j]).name == fs[k].name,
    decreases n,
{
    let s = ShapeView::Record(fs);
    if n > 0 {
        lemma_fill_fields_origin(pairs, fs, (n - 1) as nat, policy);
        let before = fill_fields(pairs, s, (n - 1) as nat, policy)->Ok_0;
        let after = fill_fields(pairs, s, n, policy)->Ok_0;
        lemma_field_index(fs, pairs[n - 1].name, 0);
        assert forall|k: int| 0 <= k < fs.len() && (#[trigger] after[k]) is Some implies exists|
            j: int,
        |
            0 <= j < n && (#[trigger] pairs[j]).name == fs[k].name by {
            if before[k] is Some {
                let j = choose|j: int| 0 <= j < n - 1 && (#[trigger] pairs[j]).name == fs[k].name;
                assert(pairs[j].name == fs[k].name);
            } else {
                assert(pairs[n - 1].name == fs[k].name);
            }
        }
    }
}

/// A list never stands for a record where the first entry of some field's
/// name holds a value of unknown kind: the field gets no value in its place.
pub proof fn lemma_unknown_field_rejected(
    l: ListView,
    fs: Seq<FieldShapeView>,
    i: int,
    policy: Policy,
)
    requires
        0 <= i < l.pairs.len(),
        l.pairs[i].data is Unknown,
        field_index(fs, l.pairs[i].name, 0) is Some,
        l.position(l.pairs[i].name) == Some(i),
    ensures
        spec_from_nvlist(l, ShapeView::Record(fs), policy) is Err,
{
    let s = ShapeView::Record(fs);
    let name = l.pairs[i].name;
    lemma_fill_fields_error_stays(l.pairs, s, i as nat, l.pairs.len(), policy);
    lemma_fill_fields_error_stays(l.pairs, s, (i + 1) as nat, l.pairs.len(), policy);
    if fill_fields(l.pairs, s, i as nat, policy) is Ok {
        let slots = fill_fields(l.pairs, s, i as nat, policy)->Ok_0;
        lemma_fill_fields_origin(l.pairs, fs, i as nat, policy);
        lemma_field_index(fs, name, 0);
        l.lemma_position_from(name, 0);
        let k = field_index(fs, name, 0)->0;
        if slots[k] is Some {
            let j = choose|j: int| 0 <= j < i && (#[trigger] l.pairs[j]).name == fs[k].name;
            assert(l.pairs[j].name == name);
        }
        assert(slots[k] is None);
        assert(spec_decode_value(l.pairs[i].data, fs[k].shape, name, policy) is Err);
        assert(((i + 1) as nat - 1) as nat == i as nat);
        assert(fill_fields(l.pairs, s, (i + 1) as nat, policy) is Err);
    }
}

} // verus!
